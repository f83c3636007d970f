//! What a tick does to the world, and what it leaves alone.
//!
//! While the nodes are visited the world only grows: slots and requests
//! are added, and nothing that was there changes. So every node of a tick
//! sees the same world, and selection finds the same for all of them. At
//! the end of the tick all that was filed is applied.

use crate::behavior::{kind_of, round, visit, whole_tick, BehaviorKind, NodeView};
use crate::graph::{
    admits, apply_all, is_live, lemma_apply_all_frame, well_formed, GraphView, Stage,
};
use crate::ident::{NodeId, ObjectRef};
use crate::path::SegmentView;
use crate::property::ResolutionView;
use crate::script::Answers;
use crate::select::{lemma_selection_blind, lemma_selection_live, selection};
use crate::spawn::{removal_requests, spawn_parents};
use crate::value::ValueView;
use vstd::prelude::*;

verus! {

/// A visit only adds slots to the world, and none that is live: the
/// slots that were there stay as they are.
pub proof fn lemma_visit_extends(n: NodeView, g: GraphView, answers: Answers)
    ensures
        visit(n, g, answers).graph.objects.len() >= g.objects.len(),
        forall|j: int|
            0 <= j < g.objects.len() ==> (#[trigger] visit(n, g, answers).graph.objects[j])
                == g.objects[j],
        forall|j: int|
            g.objects.len() <= j < visit(n, g, answers).graph.objects.len() ==> (
            #[trigger] visit(n, g, answers).graph.objects[j]).stage != Stage::Live,
{
}

/// A round only adds slots to the world, and none that is live.
pub proof fn lemma_round_extends(
    nodes: Seq<NodeView>,
    kind: BehaviorKind,
    g: GraphView,
    answers: Answers,
    upto: int,
)
    ensures
        round(nodes, kind, g, answers, upto).graph.objects.len() >= g.objects.len(),
        forall|j: int|
            0 <= j < g.objects.len() ==> (#[trigger] round(
                nodes,
                kind,
                g,
                answers,
                upto,
            ).graph.objects[j]) == g.objects[j],
        forall|j: int|
            g.objects.len() <= j < round(nodes, kind, g, answers, upto).graph.objects.len() ==> (
            #[trigger] round(nodes, kind, g, answers, upto).graph.objects[j]).stage
                != Stage::Live,
    decreases upto,
{
    if 0 < upto <= nodes.len() {
        lemma_round_extends(nodes, kind, g, answers, upto - 1);
        let earlier = round(nodes, kind, g, answers, upto - 1);
        let all = round(nodes, kind, g, answers, upto);
        if kind_of(nodes[upto - 1].behavior) == kind {
            lemma_visit_extends(nodes[upto - 1], earlier.graph, answers);
            assert forall|j: int| 0 <= j < g.objects.len() implies (#[trigger] all.graph.objects[j])
                == g.objects[j] by {
                assert(earlier.graph.objects[j] == g.objects[j]);
            }
            assert forall|j: int| g.objects.len() <= j < all.graph.objects.len() implies (
            #[trigger] all.graph.objects[j]).stage != Stage::Live by {
                if j < earlier.graph.objects.len() {
                    assert(all.graph.objects[j] == earlier.graph.objects[j]);
                }
            }
        }
    }
}

/// A visit only adds requests: those that waited still wait, in their
/// places.
pub proof fn lemma_visit_appends(n: NodeView, g: GraphView, answers: Answers)
    ensures
        visit(n, g, answers).graph.pending.len() >= g.pending.len(),
        forall|j: int|
            0 <= j < g.pending.len() ==> (#[trigger] visit(n, g, answers).graph.pending[j])
                == g.pending[j],
{
}

/// A round only adds requests.
pub proof fn lemma_round_appends(
    nodes: Seq<NodeView>,
    kind: BehaviorKind,
    g: GraphView,
    answers: Answers,
    upto: int,
)
    ensures
        round(nodes, kind, g, answers, upto).graph.pending.len() >= g.pending.len(),
        forall|j: int|
            0 <= j < g.pending.len() ==> (#[trigger] round(
                nodes,
                kind,
                g,
                answers,
                upto,
            ).graph.pending[j]) == g.pending[j],
    decreases upto,
{
    if 0 < upto <= nodes.len() {
        lemma_round_appends(nodes, kind, g, answers, upto - 1);
        let earlier = round(nodes, kind, g, answers, upto - 1);
        let all = round(nodes, kind, g, answers, upto);
        if kind_of(nodes[upto - 1].behavior) == kind {
            lemma_visit_appends(nodes[upto - 1], earlier.graph, answers);
            assert forall|j: int| 0 <= j < g.pending.len() implies (#[trigger] all.graph.pending[j])
                == g.pending[j] by {
                assert(earlier.graph.pending[j] == g.pending[j]);
            }
        }
    }
}

/// A visit keeps the world well formed.
pub proof fn lemma_visit_keeps_shape(n: NodeView, g: GraphView, answers: Answers)
    requires
        well_formed(g.objects),
        visit(n, g, answers).graph.objects.len() <= usize::MAX,
    ensures
        well_formed(visit(n, g, answers).graph.objects),
{
    let h = visit(n, g, answers).graph.objects;
    lemma_visit_extends(n, g, answers);
    if h != g.objects {
        let s = n.behavior->Spawn_0;
        let step = crate::spawn::tick(s, n.id, g, answers);
        let parents = spawn_parents(g.objects, step.node.target);
        match step.node.target {
            Some(t) => {
                match t.state {
                    ResolutionView::Resolved(ValueView::Path(path)) => {
                        lemma_selection_live(g.objects, None, path);
                        assert forall|k: int| 0 <= k < parents.len() implies admits(
                            g.objects,
                            #[trigger] parents[k],
                        ) by {
                            assert(is_live(g.objects, selection(g.objects, None, path)[k]));
                        }
                    },
                    _ => {},
                }
            },
            None => {},
        }
        assert forall|i: int| 0 <= i < h.len() implies match (#[trigger] h[i]).parent {
            Some(p) => p.0 < i,
            None => true,
        } by {
            if i < g.objects.len() {
                assert(h[i] == g.objects[i]);
            } else {
                assert(h[i].parent == parents[i - g.objects.len()]);
                assert(admits(g.objects, parents[i - g.objects.len()]));
            }
        }
        assert forall|i: int| 0 <= i < h.len() && (#[trigger] h[i]).stage
            == Stage::Live implies match h[i].parent {
            Some(p) => is_live(h, p),
            None => true,
        } by {
            assert(i < g.objects.len());
            assert(h[i] == g.objects[i]);
            match g.objects[i].parent {
                Some(p) => {
                    assert(is_live(g.objects, p));
                    assert(h[p.0 as int] == g.objects[p.0 as int]);
                },
                None => {},
            }
        }
    }
}

/// A round keeps the world well formed.
pub proof fn lemma_round_keeps_shape(
    nodes: Seq<NodeView>,
    kind: BehaviorKind,
    g: GraphView,
    answers: Answers,
    upto: int,
)
    requires
        well_formed(g.objects),
        round(nodes, kind, g, answers, upto).graph.objects.len() <= usize::MAX,
    ensures
        well_formed(round(nodes, kind, g, answers, upto).graph.objects),
    decreases upto,
{
    if 0 < upto <= nodes.len() {
        let earlier = round(nodes, kind, g, answers, upto - 1);
        if kind_of(nodes[upto - 1].behavior) == kind {
            lemma_visit_extends(nodes[upto - 1], earlier.graph, answers);
            lemma_round_keeps_shape(nodes, kind, g, answers, upto - 1);
            lemma_visit_keeps_shape(nodes[upto - 1], earlier.graph, answers);
        } else {
            lemma_round_keeps_shape(nodes, kind, g, answers, upto - 1);
        }
    }
}

/// What a selection finds does not change during a round: the nodes
/// file requests, and what they ask for is not found before the end of
/// the tick. So every node of a round sees the same world.
pub proof fn lemma_selection_steady(
    nodes: Seq<NodeView>,
    kind: BehaviorKind,
    g: GraphView,
    answers: Answers,
    upto: int,
    origin: Option<ObjectRef>,
    path: Seq<SegmentView>,
)
    ensures
        selection(round(nodes, kind, g, answers, upto).graph.objects, origin, path) == selection(
            g.objects,
            origin,
            path,
        ),
{
    let after = round(nodes, kind, g, answers, upto).graph.objects;
    lemma_round_extends(nodes, kind, g, answers, upto);
    let more = after.subrange(g.objects.len() as int, after.len() as int);
    assert(after =~= g.objects + more);
    lemma_selection_blind(g.objects, more, origin, path);
}

/// The world just before the end of the whole tick, and all that is
/// applied to it then.
pub open spec fn before_commit(
    nodes: Seq<NodeView>,
    removals: Seq<NodeId>,
    g: GraphView,
    answers: Answers,
) -> GraphView {
    let spawns = round(nodes, BehaviorKind::Spawn, g, answers, nodes.len() as int);
    let anims = round(
        spawns.nodes,
        BehaviorKind::Anim,
        spawns.graph,
        answers,
        nodes.len() as int,
    );
    GraphView {
        objects: anims.graph.objects,
        pending: anims.graph.pending + removal_requests(anims.graph.objects, removals),
    }
}

/// The whole tick ends by applying what is filed.
pub proof fn lemma_whole_tick_commits(
    nodes: Seq<NodeView>,
    removals: Seq<NodeId>,
    g: GraphView,
    answers: Answers,
)
    ensures
        whole_tick(nodes, removals, g, answers).graph.objects == apply_all(
            before_commit(nodes, removals, g, answers).objects,
            before_commit(nodes, removals, g, answers).pending,
        ),
        whole_tick(nodes, removals, g, answers).graph.objects.len() == before_commit(
            nodes,
            removals,
            g,
            answers,
        ).objects.len(),
{
    let b = before_commit(nodes, removals, g, answers);
    lemma_apply_all_frame(b.objects, b.pending);
}

} // verus!
