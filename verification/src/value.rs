//! The values that properties resolve to.

use crate::path::{PathExpression, SegmentView};
use vstd::prelude::*;

verus! {

/// The type of a value.
#[derive(Clone, Copy, PartialEq, Eq, Structural, Debug)]
pub enum ValueKind {
    Bool,
    Text,
    Path,
}

/// A typed value.
#[derive(Debug, PartialEq, Eq)]
pub enum Value {
    Bool(bool),
    Text(String),
    Path(PathExpression),
}

/// Mathematical value of a `Value`.
pub enum ValueView {
    Bool(bool),
    Text(Seq<char>),
    Path(Seq<SegmentView>),
}

/// The type of `value`.
pub open spec fn kind_of(value: ValueView) -> ValueKind {
    match value {
        ValueView::Bool(_) => ValueKind::Bool,
        ValueView::Text(_) => ValueKind::Text,
        ValueView::Path(_) => ValueKind::Path,
    }
}

impl View for Value {
    type V = ValueView;

    open spec fn view(&self) -> ValueView {
        match self {
            Value::Bool(b) => ValueView::Bool(*b),
            Value::Text(t) => ValueView::Text(t@),
            Value::Path(p) => ValueView::Path(p@),
        }
    }
}

impl Clone for Value {
    fn clone(&self) -> (res: Self)
        ensures
            res@ == self@,
    {
        match self {
            Value::Bool(b) => Value::Bool(*b),
            Value::Text(t) => Value::Text(t.clone()),
            Value::Path(p) => Value::Path(p.clone()),
        }
    }
}

impl Value {
    /// A text value.
    pub fn text(text: &str) -> (value: Value)
        ensures
            value@ == ValueView::Text(text@),
    {
        Value::Text(text.to_owned())
    }

    /// The type of this value.
    pub fn kind(&self) -> (kind: ValueKind)
        ensures
            kind == kind_of(self@),
    {
        match self {
            Value::Bool(_) => ValueKind::Bool,
            Value::Text(_) => ValueKind::Text,
            Value::Path(_) => ValueKind::Path,
        }
    }
}

} // verus!
