//! Cleanup is complete: what a node held is gone from the world once the
//! node started anew or was removed, and the tick has ended.

use crate::behavior::{kind_of, round, visit, whole_tick, BehaviorKind, NodeView};
use crate::custody::holds;
use crate::frame::{
    before_commit, lemma_round_appends, lemma_round_extends, lemma_round_keeps_shape,
    lemma_visit_appends, lemma_whole_tick_commits,
};
use crate::graph::{
    apply_all, has_slot, in_subtree, lemma_apply_all_frame, lemma_apply_all_keeps_shape,
    lemma_despawn_is_final, lemma_nothing_lives_below_the_dead, lemma_subtree_by_parents,
    owner_of, well_formed, GraphView, ObjectView, RequestView, Stage,
};
use crate::ident::{NodeId, ObjectRef, SpawnOwned};
use crate::node::NodeState;
use crate::ownership::{despawns, releasable};
use crate::script::Answers;
use crate::spawn::{released, removal_requests};
use vstd::prelude::*;

verus! {

/// After a spawn node started anew, and the tick has ended, nothing of
/// what it held before is part of the world, nor is anything below it:
/// whatever else was requested in that tick, before or after, and
/// whatever slots were handed out since.
pub proof fn lemma_restart_cleanup(
    n: NodeView,
    g: GraphView,
    answers: Answers,
    more: Seq<ObjectView>,
    later: Seq<RequestView>,
    k: int,
    x: int,
)
    requires
        n.state == NodeState::Starting,
        0 <= k < holds(n).len(),
        0 <= x < g.objects.len() + more.len(),
        in_subtree(g.objects + more, holds(n)[k].0 as int, x),
    ensures
        apply_all(g.objects + more, visit(n, g, answers).graph.pending + later).len()
            == g.objects.len() + more.len(),
        apply_all(g.objects + more, visit(n, g, answers).graph.pending + later)[x].stage
            == Stage::Removed,
{
    let requests = visit(n, g, answers).graph.pending + later;
    let at = g.pending.len() + k;
    assert(requests[at] == despawns(holds(n))[k]);
    lemma_despawn_is_final(g.objects + more, requests, at, holds(n)[k], x);
}

/// What carries the tag of `node` among the first `upto` slots and is not
/// removed yet has its removal among `released`.
pub proof fn lemma_released_covers(g: Seq<ObjectView>, node: NodeId, upto: int, r: ObjectRef)
    requires
        upto <= g.len() <= usize::MAX,
        r.0 < upto,
        releasable(g, r, node),
    ensures
        released(g, node, upto).contains(RequestView::Despawn { target: r }),
    decreases upto,
{
    let all = released(g, node, upto);
    if r.0 == upto - 1 {
        assert(all[all.len() - 1] == (RequestView::Despawn { target: r }));
    } else {
        lemma_released_covers(g, node, upto - 1, r);
        let rest = released(g, node, upto - 1);
        let at = choose|at: int| 0 <= at < rest.len() && rest[at] == (RequestView::Despawn { target: r });
        assert(all[at] == rest[at]);
    }
}

/// What carries the tag of one of the removed nodes and is not removed
/// yet has its removal among the requests of the cleanup.
pub proof fn lemma_removal_covers(
    g: Seq<ObjectView>,
    removals: Seq<NodeId>,
    i: int,
    r: ObjectRef,
)
    requires
        g.len() <= usize::MAX,
        0 <= i < removals.len(),
        releasable(g, r, removals[i]),
    ensures
        removal_requests(g, removals).contains(RequestView::Despawn { target: r }),
    decreases removals.len(),
{
    let all = removal_requests(g, removals);
    let head = removal_requests(g, removals.drop_last());
    let tail = released(g, removals.last(), g.len() as int);
    let wanted = RequestView::Despawn { target: r };
    if i == removals.len() - 1 {
        lemma_released_covers(g, removals.last(), g.len() as int, r);
        let at = choose|at: int| 0 <= at < tail.len() && tail[at] == wanted;
        assert(all[head.len() + at] == wanted);
    } else {
        lemma_removal_covers(g, removals.drop_last(), i, r);
        let at = choose|at: int| 0 <= at < head.len() && head[at] == wanted;
        assert(all[at] == wanted);
    }
}

/// After the cleanup for removed nodes, and the end of the tick, nothing
/// that carried the tag of one of them is part of the world, nor is
/// anything below it: whatever else was requested in that tick, before or
/// after, and whatever slots were handed out since.
pub proof fn lemma_removal_cleanup(
    g: GraphView,
    removals: Seq<NodeId>,
    i: int,
    r: ObjectRef,
    more: Seq<ObjectView>,
    later: Seq<RequestView>,
    x: int,
)
    requires
        well_formed(g.objects + more),
        0 <= i < removals.len(),
        owner_of(g.objects, r) == Some(SpawnOwned(removals[i])),
        0 <= x < g.objects.len() + more.len(),
        in_subtree(g.objects + more, r.0 as int, x),
    ensures
        apply_all(
            g.objects + more,
            g.pending + removal_requests(g.objects, removals) + later,
        ).len() == g.objects.len() + more.len(),
        apply_all(
            g.objects + more,
            g.pending + removal_requests(g.objects, removals) + later,
        )[x].stage != Stage::Live,
{
    let world = g.objects + more;
    let cleanup = removal_requests(g.objects, removals);
    let requests = g.pending + cleanup + later;
    let after = apply_all(world, requests);
    lemma_apply_all_frame(world, requests);
    lemma_apply_all_keeps_shape(world, requests);
    assert(has_slot(g.objects, r));
    assert(world[r.0 as int] == g.objects[r.0 as int]);
    if g.objects[r.0 as int].stage != Stage::Removed {
        lemma_removal_covers(g.objects, removals, i, r);
        let wanted = RequestView::Despawn { target: r };
        let at = choose|at: int| 0 <= at < cleanup.len() && cleanup[at] == wanted;
        assert(requests[g.pending.len() + at] == wanted);
        lemma_despawn_is_final(world, requests, g.pending.len() + at, r, x);
    } else {
        assert(after[r.0 as int].stage == Stage::Removed);
        lemma_subtree_by_parents(world, after, r.0 as int, x);
        lemma_nothing_lives_below_the_dead(after, r, x);
    }
}

/// In the round of its kind, a node that starts files the removal of
/// everything it holds.
pub proof fn lemma_round_releases(
    nodes: Seq<NodeView>,
    kind: BehaviorKind,
    g: GraphView,
    answers: Answers,
    upto: int,
    i: int,
    k: int,
)
    requires
        0 <= i < upto <= nodes.len(),
        kind_of(nodes[i].behavior) == kind,
        nodes[i].state == NodeState::Starting,
        0 <= k < holds(nodes[i]).len(),
    ensures
        round(nodes, kind, g, answers, upto).graph.pending.contains(
            RequestView::Despawn { target: holds(nodes[i])[k] },
        ),
    decreases upto,
{
    let wanted = RequestView::Despawn { target: holds(nodes[i])[k] };
    let earlier = round(nodes, kind, g, answers, upto - 1);
    let all = round(nodes, kind, g, answers, upto);
    if i == upto - 1 {
        assert(all.graph.pending[earlier.graph.pending.len() + k] == despawns(holds(nodes[i]))[k]);
    } else {
        lemma_round_releases(nodes, kind, g, answers, upto - 1, i, k);
        let at = choose|at: int|
            0 <= at < earlier.graph.pending.len() && earlier.graph.pending[at] == wanted;
        if kind_of(nodes[upto - 1].behavior) == kind {
            lemma_visit_appends(nodes[upto - 1], earlier.graph, answers);
        }
        assert(all.graph.pending[at] == wanted);
    }
}

/// After a whole tick in which a node started anew, nothing of what the
/// node held before is part of the world, nor is anything below it.
pub proof fn lemma_tick_cleans_restarted(
    nodes: Seq<NodeView>,
    removals: Seq<NodeId>,
    g: GraphView,
    answers: Answers,
    i: int,
    k: int,
    x: int,
)
    requires
        0 <= i < nodes.len(),
        nodes[i].state == NodeState::Starting,
        0 <= k < holds(nodes[i]).len(),
        0 <= x < whole_tick(nodes, removals, g, answers).graph.objects.len(),
        in_subtree(
            whole_tick(nodes, removals, g, answers).graph.objects,
            holds(nodes[i])[k].0 as int,
            x,
        ),
    ensures
        whole_tick(nodes, removals, g, answers).graph.objects[x].stage == Stage::Removed,
{
    let target = holds(nodes[i])[k];
    let wanted = RequestView::Despawn { target };
    let spawns = round(nodes, BehaviorKind::Spawn, g, answers, nodes.len() as int);
    let anims = round(
        spawns.nodes,
        BehaviorKind::Anim,
        spawns.graph,
        answers,
        nodes.len() as int,
    );
    let b = before_commit(nodes, removals, g, answers);
    let after = whole_tick(nodes, removals, g, answers).graph.objects;
    lemma_whole_tick_commits(nodes, removals, g, answers);
    lemma_apply_all_frame(b.objects, b.pending);
    lemma_subtree_by_parents(b.objects, after, target.0 as int, x);
    lemma_round_releases(nodes, BehaviorKind::Spawn, g, answers, nodes.len() as int, i, k);
    let at = choose|at: int| 0 <= at < spawns.graph.pending.len() && spawns.graph.pending[at] == wanted;
    lemma_round_appends(spawns.nodes, BehaviorKind::Anim, spawns.graph, answers, nodes.len() as int);
    assert(anims.graph.pending[at] == wanted);
    assert(b.pending[at] == wanted);
    lemma_despawn_is_final(b.objects, b.pending, at, target, x);
}

/// After a whole tick in which the removal of a node was made known,
/// nothing that carried the node's tag when the tick began is part of the
/// world, nor is anything below it.
pub proof fn lemma_tick_cleans_removed(
    nodes: Seq<NodeView>,
    removals: Seq<NodeId>,
    g: GraphView,
    answers: Answers,
    i: int,
    r: ObjectRef,
    x: int,
)
    requires
        well_formed(g.objects),
        before_commit(nodes, removals, g, answers).objects.len() <= usize::MAX,
        0 <= i < removals.len(),
        owner_of(g.objects, r) == Some(SpawnOwned(removals[i])),
        0 <= x < whole_tick(nodes, removals, g, answers).graph.objects.len(),
        in_subtree(whole_tick(nodes, removals, g, answers).graph.objects, r.0 as int, x),
    ensures
        whole_tick(nodes, removals, g, answers).graph.objects[x].stage != Stage::Live,
{
    let spawns = round(nodes, BehaviorKind::Spawn, g, answers, nodes.len() as int);
    let anims = round(
        spawns.nodes,
        BehaviorKind::Anim,
        spawns.graph,
        answers,
        nodes.len() as int,
    );
    let b = before_commit(nodes, removals, g, answers);
    let after = whole_tick(nodes, removals, g, answers).graph.objects;
    lemma_whole_tick_commits(nodes, removals, g, answers);
    lemma_apply_all_frame(b.objects, b.pending);
    lemma_subtree_by_parents(b.objects, after, r.0 as int, x);
    lemma_round_extends(nodes, BehaviorKind::Spawn, g, answers, nodes.len() as int);
    lemma_round_extends(spawns.nodes, BehaviorKind::Anim, spawns.graph, answers, nodes.len() as int);
    lemma_round_keeps_shape(nodes, BehaviorKind::Spawn, g, answers, nodes.len() as int);
    lemma_round_keeps_shape(spawns.nodes, BehaviorKind::Anim, spawns.graph, answers, nodes.len() as int);
    assert(has_slot(g.objects, r));
    assert(spawns.graph.objects[r.0 as int] == g.objects[r.0 as int]);
    assert(anims.graph.objects[r.0 as int] == g.objects[r.0 as int]);
    assert(anims.graph.objects + Seq::<ObjectView>::empty() =~= anims.graph.objects);
    assert(anims.graph.pending + removal_requests(anims.graph.objects, removals)
        + Seq::<RequestView>::empty() =~= b.pending);
    lemma_removal_cleanup(anims.graph, removals, i, r, Seq::empty(), Seq::empty(), x);
}

} // verus!
