//! Why a node failed.
//!
//! A failure never leaves its node: the tree around it sees only that the
//! node failed. The reason can be read off the node, for whoever wants to
//! report it.

use crate::behavior::{BehaviorView, NPCBehavior, Node, NodeView};
use crate::ident::NodeId;
use crate::node::NodeState;
use crate::property::{failure_as, PropertyView, ResolveError, ResolveErrorView};
use crate::value::ValueKind;
use vstd::prelude::*;

verus! {

/// The reason of a failure.
#[derive(Debug, PartialEq, Eq)]
pub enum FailureReason {
    /// A property could not be resolved to a value of its type.
    Resolution(ResolveError),
    /// The target path names no object.
    SelectionMiss,
}

/// Mathematical value of a `FailureReason`.
pub enum FailureReasonView {
    Resolution(ResolveErrorView),
    SelectionMiss,
}

impl View for FailureReason {
    type V = FailureReasonView;

    open spec fn view(&self) -> FailureReasonView {
        match self {
            FailureReason::Resolution(e) => FailureReasonView::Resolution(e@),
            FailureReason::SelectionMiss => FailureReasonView::SelectionMiss,
        }
    }
}

/// The record of a failure: which node failed, and why.
#[derive(Debug, PartialEq, Eq)]
pub struct Diagnostic {
    pub node: NodeId,
    pub reason: FailureReason,
}

/// Mathematical value of a `Diagnostic`.
pub struct DiagnosticView {
    pub node: NodeId,
    pub reason: FailureReasonView,
}

impl View for Diagnostic {
    type V = DiagnosticView;

    open spec fn view(&self) -> DiagnosticView {
        DiagnosticView { node: self.node, reason: self.reason@ }
    }
}

/// The reason found in the properties `first`, `second` and `third`,
/// which are to give values of the types `a`, `b` and `c`: that of the
/// first among them that will not give its value, and a selection miss
/// if each of them will.
pub open spec fn reason_among(
    first: Option<ResolveErrorView>,
    second: Option<ResolveErrorView>,
    third: Option<ResolveErrorView>,
) -> FailureReasonView {
    match first {
        Some(e) => FailureReasonView::Resolution(e),
        None => match second {
            Some(e) => FailureReasonView::Resolution(e),
            None => match third {
                Some(e) => FailureReasonView::Resolution(e),
                None => FailureReasonView::SelectionMiss,
            },
        },
    }
}

/// What stands in the way of an optional property.
pub open spec fn optional_failure(p: Option<PropertyView>, kind: ValueKind) -> Option<
    ResolveErrorView,
> {
    match p {
        Some(t) => failure_as(t, kind),
        None => None,
    }
}

/// Why the behavior `b` fails, given that it does: the properties are
/// looked at in the order in which the behavior fetches them.
pub open spec fn reason_of(b: BehaviorView) -> FailureReasonView {
    match b {
        BehaviorView::Spawn(s) => reason_among(
            failure_as(s.asset, ValueKind::Text),
            failure_as(s.name, ValueKind::Text),
            optional_failure(s.target, ValueKind::Path),
        ),
        BehaviorView::Anim(a) => reason_among(
            failure_as(a.asset, ValueKind::Text),
            failure_as(a.target, ValueKind::Path),
            failure_as(a.repeat, ValueKind::Bool),
        ),
    }
}

/// The record of the failure of the node `n`, if it has failed.
pub open spec fn diagnosis(n: NodeView) -> Option<DiagnosticView> {
    if n.state == NodeState::Failure {
        Some(DiagnosticView { node: n.id, reason: reason_of(n.behavior) })
    } else {
        None
    }
}

/// The first reason among three.
fn first_reason(
    first: Option<ResolveError>,
    second: Option<ResolveError>,
    third: Option<ResolveError>,
) -> (reason: FailureReason)
    ensures
        reason@ == reason_among(
            match first {
                Some(e) => Some(e@),
                None => None,
            },
            match second {
                Some(e) => Some(e@),
                None => None,
            },
            match third {
                Some(e) => Some(e@),
                None => None,
            },
        ),
{
    match first {
        Some(e) => FailureReason::Resolution(e),
        None => match second {
            Some(e) => FailureReason::Resolution(e),
            None => match third {
                Some(e) => FailureReason::Resolution(e),
                None => FailureReason::SelectionMiss,
            },
        },
    }
}

impl Node {
    /// The record of this node's failure, if it has failed.
    pub fn diagnostic(&self) -> (record: Option<Diagnostic>)
        ensures
            match record {
                Some(d) => diagnosis(self@) == Some(d@),
                None => diagnosis(self@).is_none(),
            },
    {
        if self.state != NodeState::Failure {
            return None;
        }
        let reason = match &self.behavior {
            NPCBehavior::Spawn(s) => {
                let target = match &s.target {
                    Some(t) => t.failure_as(ValueKind::Path),
                    None => None,
                };
                first_reason(
                    s.asset.failure_as(ValueKind::Text),
                    s.name.failure_as(ValueKind::Text),
                    target,
                )
            },
            NPCBehavior::Anim(a) => first_reason(
                a.asset.failure_as(ValueKind::Text),
                a.target.failure_as(ValueKind::Path),
                a.repeat.failure_as(ValueKind::Bool),
            ),
        };
        Some(Diagnostic { node: self.id, reason })
    }
}

} // verus!
