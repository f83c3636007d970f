//! Properties: the declared parameters of a behavior, and how they get
//! their values.
//!
//! A property knows where its value comes from: written down beforehand,
//! computed by a script, or a path into the world. `fetch` turns the
//! source into a value, at most once between two resets; a script may
//! take several ticks to answer.

use crate::ident::NodeId;
use crate::path::{parsed, PathError, PathExpression, SegmentView};
use crate::script::{answer, Answers, ScriptContext, ScriptPoll, ScriptPollView};
use crate::value::{kind_of, Value, ValueKind, ValueView};
use vstd::prelude::*;

verus! {

/// Why a property has no value.
#[derive(Debug, PartialEq, Eq)]
pub enum ResolveError {
    /// The script raised an error, for this reason.
    Script(String),
    /// The value found is not of the type the property declares.
    TypeMismatch { expected: ValueKind, found: ValueKind },
    /// The property declares a path, and the text found is none.
    BadPath(PathError),
}

/// Mathematical value of a `ResolveError`.
pub enum ResolveErrorView {
    Script(Seq<char>),
    TypeMismatch { expected: ValueKind, found: ValueKind },
    BadPath(PathError),
}

impl View for ResolveError {
    type V = ResolveErrorView;

    open spec fn view(&self) -> ResolveErrorView {
        match self {
            ResolveError::Script(reason) => ResolveErrorView::Script(reason@),
            ResolveError::TypeMismatch { expected, found } => ResolveErrorView::TypeMismatch {
                expected: *expected,
                found: *found,
            },
            ResolveError::BadPath(e) => ResolveErrorView::BadPath(*e),
        }
    }
}

impl Clone for ResolveError {
    fn clone(&self) -> (res: Self)
        ensures
            res@ == self@,
    {
        match self {
            ResolveError::Script(reason) => ResolveError::Script(reason.clone()),
            ResolveError::TypeMismatch { expected, found } => ResolveError::TypeMismatch {
                expected: *expected,
                found: *found,
            },
            ResolveError::BadPath(e) => ResolveError::BadPath(*e),
        }
    }
}

/// Where the value of a property comes from.
#[derive(Debug, PartialEq, Eq)]
pub enum Source {
    /// Written down when the tree was made.
    Literal(Value),
    /// The value of this script expression.
    Script(String),
    /// This path into the world.
    Path(PathExpression),
}

/// Mathematical value of a `Source`.
pub enum SourceView {
    Literal(ValueView),
    Script(Seq<char>),
    Path(Seq<SegmentView>),
}

impl View for Source {
    type V = SourceView;

    open spec fn view(&self) -> SourceView {
        match self {
            Source::Literal(v) => SourceView::Literal(v@),
            Source::Script(e) => SourceView::Script(e@),
            Source::Path(p) => SourceView::Path(p@),
        }
    }
}

impl Clone for Source {
    fn clone(&self) -> (res: Self)
        ensures
            res@ == self@,
    {
        match self {
            Source::Literal(v) => Source::Literal(v.clone()),
            Source::Script(e) => Source::Script(e.clone()),
            Source::Path(p) => Source::Path(p.clone()),
        }
    }
}

/// How far the resolution of a property has come.
#[derive(Debug, PartialEq, Eq)]
pub enum Resolution {
    /// Not resolved since the last reset.
    Unset,
    /// Resolved to this value.
    Resolved(Value),
    /// Resolution failed; it is not tried again before the next reset.
    Errored(ResolveError),
}

/// Mathematical value of a `Resolution`.
pub enum ResolutionView {
    Unset,
    Resolved(ValueView),
    Errored(ResolveErrorView),
}

impl View for Resolution {
    type V = ResolutionView;

    open spec fn view(&self) -> ResolutionView {
        match self {
            Resolution::Unset => ResolutionView::Unset,
            Resolution::Resolved(v) => ResolutionView::Resolved(v@),
            Resolution::Errored(e) => ResolutionView::Errored(e@),
        }
    }
}

impl Clone for Resolution {
    fn clone(&self) -> (res: Self)
        ensures
            res@ == self@,
    {
        match self {
            Resolution::Unset => Resolution::Unset,
            Resolution::Resolved(v) => Resolution::Resolved(v.clone()),
            Resolution::Errored(e) => Resolution::Errored(e.clone()),
        }
    }
}

/// A declared parameter of a behavior.
#[derive(Debug, PartialEq, Eq)]
pub struct Property {
    pub source: Source,
    pub expected: ValueKind,
    pub state: Resolution,
}

/// Mathematical value of a `Property`.
pub struct PropertyView {
    pub source: SourceView,
    pub expected: ValueKind,
    pub state: ResolutionView,
}

impl View for Property {
    type V = PropertyView;

    open spec fn view(&self) -> PropertyView {
        PropertyView { source: self.source@, expected: self.expected, state: self.state@ }
    }
}

impl Clone for Property {
    fn clone(&self) -> (res: Self)
        ensures
            res@ == self@,
    {
        Property {
            source: self.source.clone(),
            expected: self.expected,
            state: self.state.clone(),
        }
    }
}

/// `raw` as a value of type `expected`: itself if it has that type; the
/// path that it stands for if it is a text and a path is expected; and a
/// type mismatch otherwise.
pub open spec fn decode(raw: ValueView, expected: ValueKind) -> Result<
    ValueView,
    ResolveErrorView,
> {
    if kind_of(raw) == expected {
        Ok(raw)
    } else {
        match raw {
            ValueView::Text(text) if expected == ValueKind::Path => match parsed(text) {
                Ok(path) => Ok(ValueView::Path(path)),
                Err(e) => Err(ResolveErrorView::BadPath(e)),
            },
            _ => Err(ResolveErrorView::TypeMismatch { expected, found: kind_of(raw) }),
        }
    }
}

/// What resolving `p` yields when the scripting side answers `poll`:
/// nothing if `p` was resolved or has failed since the last reset, or if
/// it waits for a script that has no answer yet; else the value, or the
/// reason why there is none.
pub open spec fn resolved(p: PropertyView, poll: ScriptPollView) -> Option<
    Result<ValueView, ResolveErrorView>,
> {
    match p.state {
        ResolutionView::Unset => match p.source {
            SourceView::Literal(v) => Some(decode(v, p.expected)),
            SourceView::Path(path) => Some(decode(ValueView::Path(path), p.expected)),
            SourceView::Script(_) => match poll {
                ScriptPollView::Pending => None,
                ScriptPollView::Ready(v) => Some(decode(v, p.expected)),
                ScriptPollView::Failed(reason) => Some(Err(ResolveErrorView::Script(reason))),
            },
        },
        _ => None,
    }
}

/// The property `p` in the state `state`.
pub open spec fn in_state(p: PropertyView, state: ResolutionView) -> PropertyView {
    PropertyView { source: p.source, expected: p.expected, state }
}

/// The property `p` after it was resolved against the answer `poll`.
pub open spec fn settled(p: PropertyView, poll: ScriptPollView) -> PropertyView {
    match resolved(p, poll) {
        None => p,
        Some(Ok(v)) => in_state(p, ResolutionView::Resolved(v)),
        Some(Err(e)) => in_state(p, ResolutionView::Errored(e)),
    }
}

/// The answer that matters to `p` on the board `answers`: the one to its
/// expression, if its source is a script.
pub open spec fn answer_for(p: PropertyView, node: NodeId, answers: Answers) -> ScriptPollView {
    match p.source {
        SourceView::Script(expression) => answer(answers, node, expression),
        _ => ScriptPollView::Pending,
    }
}

/// The property `p` after a fetch for `node` against the board `answers`.
pub open spec fn fetched(p: PropertyView, node: NodeId, answers: Answers) -> PropertyView {
    settled(p, answer_for(p, node, answers))
}

/// `p` holds a value of type `kind`.
pub open spec fn ready_as(p: PropertyView, kind: ValueKind) -> bool {
    match p.state {
        ResolutionView::Resolved(v) => kind_of(v) == kind,
        _ => false,
    }
}

/// `p` will not give a value of type `kind` before the next reset: its
/// resolution failed, or it holds a value of another type.
pub open spec fn failed_as(p: PropertyView, kind: ValueKind) -> bool {
    match p.state {
        ResolutionView::Unset => false,
        ResolutionView::Resolved(v) => kind_of(v) != kind,
        ResolutionView::Errored(_) => true,
    }
}

/// Why `p` will not give a value of type `kind`, if it will not: the
/// reason its resolution failed, or the type of the value it holds
/// instead.
pub open spec fn failure_as(p: PropertyView, kind: ValueKind) -> Option<ResolveErrorView> {
    match p.state {
        ResolutionView::Unset => None,
        ResolutionView::Resolved(v) => if kind_of(v) == kind {
            None
        } else {
            Some(ResolveErrorView::TypeMismatch { expected: kind, found: kind_of(v) })
        },
        ResolutionView::Errored(e) => Some(e),
    }
}

impl Property {
    /// A property whose value is written down. It declares the type of
    /// that value.
    pub fn literal(value: Value) -> (p: Property)
        ensures
            p@.source == SourceView::Literal(value@),
            p@.expected == kind_of(value@),
            p@.state == ResolutionView::Unset,
    {
        let expected = value.kind();
        Property { source: Source::Literal(value), expected, state: Resolution::Unset }
    }

    /// A property whose value a script computes, declared to be of type
    /// `expected`.
    pub fn script(expression: &str, expected: ValueKind) -> (p: Property)
        ensures
            p@.source == SourceView::Script(expression@),
            p@.expected == expected,
            p@.state == ResolutionView::Unset,
    {
        Property {
            source: Source::Script(expression.to_owned()),
            expected,
            state: Resolution::Unset,
        }
    }

    /// A property whose value is a path into the world.
    pub fn path(path: PathExpression) -> (p: Property)
        ensures
            p@.source == SourceView::Path(path@),
            p@.expected == ValueKind::Path,
            p@.state == ResolutionView::Unset,
    {
        Property { source: Source::Path(path), expected: ValueKind::Path, state: Resolution::Unset }
    }

    /// Forgets what the property was resolved to.
    pub fn reset(&mut self)
        ensures
            final(self)@ == in_state(old(self)@, ResolutionView::Unset),
    {
        self.state = Resolution::Unset;
    }

    /// Whether the property is not resolved since the last reset.
    pub fn is_unset(&self) -> (yes: bool)
        ensures
            yes == (self@.state is Unset),
    {
        match &self.state {
            Resolution::Unset => true,
            _ => false,
        }
    }

    /// Whether resolution has failed since the last reset.
    pub fn is_errored(&self) -> (yes: bool)
        ensures
            yes == (self@.state is Errored),
    {
        match &self.state {
            Resolution::Errored(_) => true,
            _ => false,
        }
    }

    /// The value the property was resolved to, if it was.
    pub fn value(&self) -> (value: Option<&Value>)
        ensures
            match value {
                Some(v) => self@.state == ResolutionView::Resolved(v@),
                None => !(self@.state is Resolved),
            },
    {
        match &self.state {
            Resolution::Resolved(v) => Some(v),
            _ => None,
        }
    }

    /// Whether the property will not give a value of type `kind` before
    /// the next reset.
    pub fn failed_as(&self, kind: ValueKind) -> (yes: bool)
        ensures
            yes == failed_as(self@, kind),
    {
        match &self.state {
            Resolution::Unset => false,
            Resolution::Resolved(v) => v.kind() != kind,
            Resolution::Errored(_) => true,
        }
    }

    /// Why the property will not give a value of type `kind`, if it will
    /// not.
    pub fn failure_as(&self, kind: ValueKind) -> (reason: Option<ResolveError>)
        ensures
            match reason {
                Some(e) => failure_as(self@, kind) == Some(e@),
                None => failure_as(self@, kind).is_none(),
            },
            reason.is_some() == failed_as(self@, kind),
    {
        match &self.state {
            Resolution::Unset => None,
            Resolution::Resolved(v) => {
                let found = v.kind();
                if found == kind {
                    None
                } else {
                    Some(ResolveError::TypeMismatch { expected: kind, found })
                }
            },
            Resolution::Errored(e) => Some(e.clone()),
        }
    }

    /// The script expression that this property waits for, if it waits
    /// for one: its source is a script and it is not resolved.
    pub fn pending_expression(&self) -> (expression: Option<&String>)
        ensures
            match expression {
                Some(e) => self@.state is Unset && self@.source == SourceView::Script(e@),
                None => !(self@.state is Unset) || !(self@.source is Script),
            },
    {
        match &self.state {
            Resolution::Unset => match &self.source {
                Source::Script(e) => Some(e),
                _ => None,
            },
            _ => None,
        }
    }

    /// `raw` as a value of type `expected`.
    pub fn decode(raw: Value, expected: ValueKind) -> (result: Result<Value, ResolveError>)
        ensures
            match result {
                Ok(v) => decode(raw@, expected) == Ok::<ValueView, ResolveErrorView>(v@),
                Err(e) => decode(raw@, expected) == Err::<ValueView, ResolveErrorView>(e@),
            },
    {
        let found = raw.kind();
        if found == expected {
            return Ok(raw);
        }
        match raw {
            Value::Text(text) => {
                if expected == ValueKind::Path {
                    match PathExpression::parse(text.as_str()) {
                        Ok(path) => Ok(Value::Path(path)),
                        Err(e) => Err(ResolveError::BadPath(e)),
                    }
                } else {
                    Err(ResolveError::TypeMismatch { expected, found })
                }
            },
            _ => Err(ResolveError::TypeMismatch { expected, found }),
        }
    }

    /// Resolves the property, given the answer `poll` of the scripting
    /// side to its expression (which matters only if the source is a
    /// script).
    ///
    /// Returns the value the first time there is one, and from then on
    /// nothing until the next reset. Returns the reason if the script
    /// failed or the value is not of the declared type; the property then
    /// stays failed until the next reset. Returns nothing while the script
    /// has no answer.
    pub fn resolve(&mut self, poll: &ScriptPoll) -> (result: Option<Result<Value, ResolveError>>)
        ensures
            final(self)@ == settled(old(self)@, poll@),
            match result {
                None => resolved(old(self)@, poll@).is_none(),
                Some(Ok(v)) => resolved(old(self)@, poll@) == Some(
                    Ok::<ValueView, ResolveErrorView>(v@),
                ),
                Some(Err(e)) => resolved(old(self)@, poll@) == Some(
                    Err::<ValueView, ResolveErrorView>(e@),
                ),
            },
    {
        if !self.is_unset() {
            return None;
        }
        let raw: Value = match &self.source {
            Source::Literal(v) => v.clone(),
            Source::Path(path) => Value::Path(path.clone()),
            Source::Script(_) => match poll {
                ScriptPoll::Pending => {
                    return None;
                },
                ScriptPoll::Ready(v) => v.clone(),
                ScriptPoll::Failed(reason) => {
                    self.state = Resolution::Errored(ResolveError::Script(reason.clone()));
                    return Some(Err(ResolveError::Script(reason.clone())));
                },
            },
        };
        let decoded = Self::decode(raw, self.expected);
        match decoded {
            Ok(v) => {
                self.state = Resolution::Resolved(v.clone());
                Some(Ok(v))
            },
            Err(e) => {
                self.state = Resolution::Errored(e.clone());
                Some(Err(e))
            },
        }
    }

    /// Resolves the property for the node `node` against the board
    /// `scripts`: `resolve` with the answer that the board holds for the
    /// property's expression.
    pub fn fetch(&mut self, node: NodeId, scripts: &ScriptContext) -> (result: Option<
        Result<Value, ResolveError>,
    >)
        ensures
            final(self)@ == settled(old(self)@, answer_for(old(self)@, node, scripts@)),
            match result {
                None => resolved(old(self)@, answer_for(old(self)@, node, scripts@)).is_none(),
                Some(Ok(v)) => resolved(old(self)@, answer_for(old(self)@, node, scripts@))
                    == Some(Ok::<ValueView, ResolveErrorView>(v@)),
                Some(Err(e)) => resolved(old(self)@, answer_for(old(self)@, node, scripts@))
                    == Some(Err::<ValueView, ResolveErrorView>(e@)),
            },
    {
        let poll = match &self.source {
            Source::Script(expression) => scripts.poll(node, expression),
            _ => ScriptPoll::Pending,
        };
        self.resolve(&poll)
    }
}

/// Once a property has a value, resolving it again changes nothing and
/// yields nothing, whatever the scripting side answers.
pub proof fn lemma_resolution_stable(
    p: PropertyView,
    first: ScriptPollView,
    later: ScriptPollView,
)
    requires
        resolved(p, first) matches Some(Ok(_)),
    ensures
        settled(p, first).state == ResolutionView::Resolved(resolved(p, first)->0->Ok_0),
        resolved(settled(p, first), later).is_none(),
        settled(settled(p, first), later) == settled(p, first),
{
}

/// A value that a property is resolved to is of the type the property
/// declares.
pub proof fn lemma_resolved_is_typed(p: PropertyView, poll: ScriptPollView)
    requires
        p.state == ResolutionView::Unset,
    ensures
        settled(p, poll).state matches ResolutionView::Resolved(v) ==> kind_of(v) == p.expected,
{
}

/// A failed resolution is not tried again before the next reset.
pub proof fn lemma_failure_sticks(p: PropertyView, first: ScriptPollView, later: ScriptPollView)
    requires
        resolved(p, first) matches Some(Err(_)),
    ensures
        settled(p, first).state is Errored,
        resolved(settled(p, first), later).is_none(),
        settled(settled(p, first), later) == settled(p, first),
{
}

/// A reset makes a property resolvable again, from its source alone.
pub proof fn lemma_reset_forgets(p: PropertyView, state: ResolutionView, poll: ScriptPollView)
    ensures
        resolved(in_state(in_state(p, state), ResolutionView::Unset), poll) == resolved(
            in_state(p, ResolutionView::Unset),
            poll,
        ),
{
}

} // verus!
