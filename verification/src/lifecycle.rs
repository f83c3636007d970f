//! What holds over the life of a node: a start clears it, it asks the
//! world for something at most once before it is activated again, and
//! what it has come to lasts.

use crate::behavior::{visit, BehaviorView, NodeView};
use crate::custody::holds;
use crate::graph::GraphView;
use crate::node::{is_active, NodeState, Outcome};
use crate::property::ResolutionView;
use crate::script::Answers;
use crate::spawn::materialized;
use vstd::prelude::*;

verus! {

/// The behavior `b` holds nothing from an earlier activation: every
/// property is unset, and it owns nothing and has asked for nothing.
pub open spec fn cleared(b: BehaviorView) -> bool {
    match b {
        BehaviorView::Spawn(s) => {
            &&& s.asset.state == ResolutionView::Unset
            &&& s.name.state == ResolutionView::Unset
            &&& s.target matches Some(t) ==> t.state == ResolutionView::Unset
            &&& s.scenes.len() == 0
        },
        BehaviorView::Anim(a) => {
            &&& a.asset.state == ResolutionView::Unset
            &&& a.target.state == ResolutionView::Unset
            &&& a.repeat.state == ResolutionView::Unset
            &&& a.clip.is_none()
        },
    }
}

/// The visit of a node that starts clears it and lets it run: after it
/// every property is unset and the node owns nothing.
pub proof fn lemma_start_clears(n: NodeView, g: GraphView, answers: Answers)
    requires
        n.state == NodeState::Starting,
    ensures
        visit(n, g, answers).node.id == n.id,
        visit(n, g, answers).node.state == NodeState::Running,
        cleared(visit(n, g, answers).node.behavior),
{
}

/// The behavior `b` has done what it does to the world since it last
/// started: a spawn node owns objects, an anim node has asked for its
/// clip.
pub open spec fn has_asked(b: BehaviorView) -> bool {
    match b {
        BehaviorView::Spawn(s) => s.scenes.len() > 0,
        BehaviorView::Anim(a) => a.clip.is_some(),
    }
}

/// The node `n` will ask for nothing more in this activation: it has
/// succeeded or failed, or it runs and has asked already.
pub open spec fn spent(n: NodeView) -> bool {
    ||| n.state == NodeState::Success
    ||| n.state == NodeState::Failure
    ||| n.state == NodeState::Running && has_asked(n.behavior)
}

/// The visit of the running node `n` asks something of the world.
pub open spec fn asks(n: NodeView, g: GraphView, answers: Answers) -> bool {
    n.state == NodeState::Running && visit(n, g, answers).graph != g
}

/// A node that asks something of the world is spent afterwards.
pub proof fn lemma_asking_spends(n: NodeView, g: GraphView, answers: Answers)
    requires
        asks(n, g, answers),
    ensures
        spent(visit(n, g, answers).node),
{
    match n.behavior {
        BehaviorView::Spawn(s) => {
            let step = crate::spawn::tick(s, n.id, g, answers);
            if step.node.scenes.len() == 0 && step.outcome == Outcome::Running {
                assert(step.graph == g);
            }
        },
        BehaviorView::Anim(a) => {},
    }
}

/// A spent node asks for nothing, whatever the world and the scripts
/// say, and stays spent.
pub proof fn lemma_spent_is_quiet(n: NodeView, g: GraphView, answers: Answers)
    requires
        spent(n),
    ensures
        visit(n, g, answers).graph == g,
        visit(n, g, answers).node.behavior == n.behavior,
        spent(visit(n, g, answers).node),
{
}

/// Number of visits that ask something of the world, when the node `n`
/// is visited once in each of the worlds `worlds`, one after the other.
pub open spec fn times_asked(n: NodeView, worlds: Seq<(GraphView, Answers)>) -> nat
    decreases worlds.len(),
{
    if worlds.len() == 0 {
        0
    } else {
        let first = worlds[0];
        let rest = times_asked(visit(n, first.0, first.1).node, worlds.skip(1));
        if asks(n, first.0, first.1) {
            rest + 1
        } else {
            rest
        }
    }
}

/// A spent node never asks again before it is activated anew.
pub proof fn lemma_spent_never_asks(n: NodeView, worlds: Seq<(GraphView, Answers)>)
    requires
        spent(n),
    ensures
        times_asked(n, worlds) == 0,
    decreases worlds.len(),
{
    if worlds.len() > 0 {
        let first = worlds[0];
        lemma_spent_is_quiet(n, first.0, first.1);
        lemma_spent_never_asks(visit(n, first.0, first.1).node, worlds.skip(1));
    }
}

/// Between two activations a node asks something of the world at most
/// once, however many ticks go by and whatever the world and the scripts
/// say in each.
pub proof fn lemma_asks_at_most_once(n: NodeView, worlds: Seq<(GraphView, Answers)>)
    ensures
        times_asked(n, worlds) <= 1,
    decreases worlds.len(),
{
    if worlds.len() > 0 {
        let first = worlds[0];
        let next = visit(n, first.0, first.1).node;
        if asks(n, first.0, first.1) {
            lemma_asking_spends(n, first.0, first.1);
            lemma_spent_never_asks(next, worlds.skip(1));
        } else {
            lemma_asks_at_most_once(next, worlds.skip(1));
        }
    }
}

/// Success and failure last: the visit of a node that has succeeded or
/// failed changes nothing, and neither does the visit of an idle node.
pub proof fn lemma_outcome_lasts(n: NodeView, g: GraphView, answers: Answers)
    requires
        !is_active(n.state),
    ensures
        visit(n, g, answers).node == n,
        visit(n, g, answers).graph == g,
{
}

/// A spawn node succeeds only when it owns something and all it owns has
/// content.
pub proof fn lemma_spawn_success(n: NodeView, g: GraphView, answers: Answers)
    requires
        n.state == NodeState::Running,
        n.behavior is Spawn,
        visit(n, g, answers).node.state == NodeState::Success,
    ensures
        holds(n).len() > 0,
        holds(visit(n, g, answers).node) == holds(n),
        materialized(g.objects, holds(n)),
{
}

/// An anim node succeeds only in the visit in which it asks for its clip,
/// and only if its target names something.
pub proof fn lemma_anim_success(n: NodeView, g: GraphView, answers: Answers)
    requires
        n.state == NodeState::Running,
        n.behavior is Anim,
        visit(n, g, answers).node.state == NodeState::Success,
    ensures
        !has_asked(n.behavior),
        has_asked(visit(n, g, answers).node.behavior),
        visit(n, g, answers).graph.pending.len() > g.pending.len(),
{
}

} // verus!
