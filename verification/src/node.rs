//! The execution protocol of a node: its states, and what it reports.

use vstd::prelude::*;

verus! {

/// Where a node stands. A node is idle until it is activated; an activated
/// node first starts, then runs until it succeeds or fails. Success and
/// failure last until the node is activated again.
#[derive(Clone, Copy, PartialEq, Eq, Structural, Debug)]
pub enum NodeState {
    Idle,
    Starting,
    Running,
    Success,
    Failure,
}

/// What a tick of a behavior reports.
#[derive(Clone, Copy, PartialEq, Eq, Structural, Debug)]
pub enum Outcome {
    /// Nothing final yet.
    Running,
    Success,
    Failure,
}

/// The state of a running node after a tick that reported `outcome`.
pub open spec fn state_after(outcome: Outcome) -> NodeState {
    match outcome {
        Outcome::Running => NodeState::Running,
        Outcome::Success => NodeState::Success,
        Outcome::Failure => NodeState::Failure,
    }
}

/// Whether a node in `state` takes part in a tick.
pub open spec fn is_active(state: NodeState) -> bool {
    state == NodeState::Starting || state == NodeState::Running
}

/// What a node in `state` shows to the tree around it; nothing while it
/// is idle.
pub open spec fn shown(state: NodeState) -> Option<Outcome> {
    match state {
        NodeState::Idle => None,
        NodeState::Starting => Some(Outcome::Running),
        NodeState::Running => Some(Outcome::Running),
        NodeState::Success => Some(Outcome::Success),
        NodeState::Failure => Some(Outcome::Failure),
    }
}

impl NodeState {
    /// The state of a running node after a tick that reported `outcome`.
    pub fn after(outcome: Outcome) -> (state: NodeState)
        ensures
            state == state_after(outcome),
    {
        match outcome {
            Outcome::Running => NodeState::Running,
            Outcome::Success => NodeState::Success,
            Outcome::Failure => NodeState::Failure,
        }
    }

    /// Whether a node in this state takes part in a tick.
    pub fn is_active(&self) -> (yes: bool)
        ensures
            yes == is_active(*self),
    {
        match self {
            NodeState::Starting => true,
            NodeState::Running => true,
            _ => false,
        }
    }

    /// What a node in this state shows to the tree around it.
    pub fn outcome(&self) -> (outcome: Option<Outcome>)
        ensures
            outcome == shown(*self),
    {
        match self {
            NodeState::Idle => None,
            NodeState::Starting => Some(Outcome::Running),
            NodeState::Running => Some(Outcome::Running),
            NodeState::Success => Some(Outcome::Success),
            NodeState::Failure => Some(Outcome::Failure),
        }
    }
}

} // verus!
