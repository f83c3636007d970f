//! Ownership over whole ticks: every node holds only objects that carry
//! its own tag, and so no object is held by two nodes.

use crate::behavior::{
    kind_of, lemma_round_untouched, round, visit, whole_tick, BehaviorKind, BehaviorView,
    NodeView,
};
use crate::frame::{before_commit, lemma_round_extends, lemma_visit_extends};
use crate::graph::{apply_all, owner_of, GraphView, ObjectView, RequestView};
use crate::ident::{NodeId, ObjectRef, SpawnOwned};
use crate::ownership::{lemma_owners_exclusive, lemma_ownership_lasts, owned_by};
use crate::script::Answers;
use vstd::prelude::*;

verus! {

/// The objects that the node `n` holds.
pub open spec fn holds(n: NodeView) -> Seq<ObjectRef> {
    match n.behavior {
        BehaviorView::Spawn(s) => s.scenes,
        BehaviorView::Anim(_) => Seq::empty(),
    }
}

/// Every node holds only objects that carry its own tag.
pub open spec fn ownership_sound(nodes: Seq<NodeView>, g: Seq<ObjectView>) -> bool {
    forall|i: int| 0 <= i < nodes.len() ==> owned_by(g, (#[trigger] nodes[i]).id, holds(nodes[i]))
}

/// What a node holds after its visit carries its tag, if what it held
/// before did; and what any other node holds still carries that node's
/// tag.
pub proof fn lemma_visit_keeps_ownership(
    n: NodeView,
    g: GraphView,
    answers: Answers,
    other: NodeView,
)
    requires
        owned_by(g.objects, n.id, holds(n)),
        owned_by(g.objects, other.id, holds(other)),
        visit(n, g, answers).graph.objects.len() <= usize::MAX,
    ensures
        owned_by(visit(n, g, answers).graph.objects, n.id, holds(visit(n, g, answers).node)),
        owned_by(visit(n, g, answers).graph.objects, other.id, holds(other)),
{
    let step = visit(n, g, answers);
    lemma_visit_extends(n, g, answers);
    assert forall|k: int| 0 <= k < holds(other).len() implies owner_of(
        step.graph.objects,
        #[trigger] holds(other)[k],
    ) == Some(SpawnOwned(other.id)) by {
        assert(owner_of(g.objects, holds(other)[k]) == Some(SpawnOwned(other.id)));
        assert(step.graph.objects[holds(other)[k].0 as int] == g.objects[holds(other)[k].0 as int]);
    }
    assert forall|k: int| 0 <= k < holds(step.node).len() implies owner_of(
        step.graph.objects,
        #[trigger] holds(step.node)[k],
    ) == Some(SpawnOwned(n.id)) by {
        if holds(step.node) == holds(n) {
            assert(owner_of(g.objects, holds(n)[k]) == Some(SpawnOwned(n.id)));
            assert(step.graph.objects[holds(n)[k].0 as int] == g.objects[holds(n)[k].0 as int]);
        } else {
            assert(holds(step.node)[k].0 == g.objects.len() + k);
        }
    }
}

/// A round keeps ownership sound.
pub proof fn lemma_round_keeps_ownership(
    nodes: Seq<NodeView>,
    kind: BehaviorKind,
    g: GraphView,
    answers: Answers,
    upto: int,
)
    requires
        ownership_sound(nodes, g.objects),
        round(nodes, kind, g, answers, upto).graph.objects.len() <= usize::MAX,
    ensures
        round(nodes, kind, g, answers, upto).nodes.len() == nodes.len(),
        ownership_sound(
            round(nodes, kind, g, answers, upto).nodes,
            round(nodes, kind, g, answers, upto).graph.objects,
        ),
    decreases upto,
{
    if 0 < upto <= nodes.len() {
        let earlier = round(nodes, kind, g, answers, upto - 1);
        let all = round(nodes, kind, g, answers, upto);
        if kind_of(nodes[upto - 1].behavior) == kind {
            lemma_visit_extends(nodes[upto - 1], earlier.graph, answers);
        }
        lemma_round_keeps_ownership(nodes, kind, g, answers, upto - 1);
        lemma_round_untouched(nodes, kind, g, answers, upto - 1);
        if kind_of(nodes[upto - 1].behavior) == kind {
            assert(earlier.nodes[upto - 1] == nodes[upto - 1]);
            assert forall|i: int| 0 <= i < all.nodes.len() implies owned_by(
                all.graph.objects,
                (#[trigger] all.nodes[i]).id,
                holds(all.nodes[i]),
            ) by {
                assert(owned_by(earlier.graph.objects, earlier.nodes[i].id, holds(earlier.nodes[i])));
                assert(owned_by(
                    earlier.graph.objects,
                    earlier.nodes[upto - 1].id,
                    holds(earlier.nodes[upto - 1]),
                ));
                lemma_visit_keeps_ownership(
                    nodes[upto - 1],
                    earlier.graph,
                    answers,
                    earlier.nodes[i],
                );
            }
        }
    }
}

/// The end of a tick keeps ownership sound.
pub proof fn lemma_commit_keeps_ownership(
    nodes: Seq<NodeView>,
    g: Seq<ObjectView>,
    requests: Seq<RequestView>,
)
    requires
        ownership_sound(nodes, g),
    ensures
        ownership_sound(nodes, apply_all(g, requests)),
{
    assert forall|i: int| 0 <= i < nodes.len() implies owned_by(
        apply_all(g, requests),
        (#[trigger] nodes[i]).id,
        holds(nodes[i]),
    ) by {
        lemma_ownership_lasts(g, nodes[i].id, holds(nodes[i]), Seq::empty(), requests);
    }
}

/// Where ownership is sound, no object is held by two nodes.
pub proof fn lemma_one_owner(nodes: Seq<NodeView>, g: Seq<ObjectView>, i: int, j: int)
    requires
        ownership_sound(nodes, g),
        0 <= i < nodes.len(),
        0 <= j < nodes.len(),
        nodes[i].id != nodes[j].id,
    ensures
        forall|a: int, b: int|
            0 <= a < holds(nodes[i]).len() && 0 <= b < holds(nodes[j]).len() ==> holds(
                nodes[i],
            )[a] != holds(nodes[j])[b],
{
    lemma_owners_exclusive(g, nodes[i].id, holds(nodes[i]), nodes[j].id, holds(nodes[j]));
}

/// A whole tick keeps ownership sound.
pub proof fn lemma_tick_keeps_ownership(
    nodes: Seq<NodeView>,
    removals: Seq<NodeId>,
    g: GraphView,
    answers: Answers,
)
    requires
        ownership_sound(nodes, g.objects),
        before_commit(nodes, removals, g, answers).objects.len() <= usize::MAX,
    ensures
        whole_tick(nodes, removals, g, answers).nodes.len() == nodes.len(),
        ownership_sound(
            whole_tick(nodes, removals, g, answers).nodes,
            whole_tick(nodes, removals, g, answers).graph.objects,
        ),
{
    let spawns = round(nodes, BehaviorKind::Spawn, g, answers, nodes.len() as int);
    let anims = round(
        spawns.nodes,
        BehaviorKind::Anim,
        spawns.graph,
        answers,
        nodes.len() as int,
    );
    let b = before_commit(nodes, removals, g, answers);
    lemma_round_extends(spawns.nodes, BehaviorKind::Anim, spawns.graph, answers, nodes.len() as int);
    lemma_round_keeps_ownership(nodes, BehaviorKind::Spawn, g, answers, nodes.len() as int);
    lemma_round_keeps_ownership(
        spawns.nodes,
        BehaviorKind::Anim,
        spawns.graph,
        answers,
        nodes.len() as int,
    );
    lemma_commit_keeps_ownership(anims.nodes, b.objects, b.pending);
}

} // verus!
