//! Nodes, and the round that drives them.
//!
//! A node is a behavior with an identity and a state. Once per tick every
//! active node is visited: a node that starts is reset, and runs from the
//! next tick on; a node that runs does one tick of its behavior and takes
//! the state that the behavior reports. Idle nodes and nodes that have
//! succeeded or failed are left alone until they are activated again.

use crate::anim::{Anim, AnimView};
use crate::graph::{apply_all, GraphView, ObjectGraph, RequestView};
use crate::ident::NodeId;
use crate::node::{state_after, NodeState, Outcome};
use crate::ownership::despawns;
use crate::script::{Answers, ScriptContext};
use crate::spawn::{removal_requests, removed, Spawn, SpawnView};
use vstd::prelude::*;

verus! {

/// The kinds of leaf behavior.
#[derive(Clone, Copy, PartialEq, Eq, Structural, Debug)]
pub enum BehaviorKind {
    Spawn,
    Anim,
}

/// A leaf behavior of any kind.
#[derive(Debug)]
pub enum NPCBehavior {
    Spawn(Spawn),
    Anim(Anim),
}

/// Mathematical value of an `NPCBehavior`.
pub enum BehaviorView {
    Spawn(SpawnView),
    Anim(AnimView),
}

impl View for NPCBehavior {
    type V = BehaviorView;

    open spec fn view(&self) -> BehaviorView {
        match self {
            NPCBehavior::Spawn(s) => BehaviorView::Spawn(s@),
            NPCBehavior::Anim(a) => BehaviorView::Anim(a@),
        }
    }
}

impl Clone for NPCBehavior {
    fn clone(&self) -> (res: Self)
        ensures
            res@ == self@,
    {
        match self {
            NPCBehavior::Spawn(s) => NPCBehavior::Spawn(s.clone()),
            NPCBehavior::Anim(a) => NPCBehavior::Anim(a.clone()),
        }
    }
}

/// The kind of the behavior `b`.
pub open spec fn kind_of(b: BehaviorView) -> BehaviorKind {
    match b {
        BehaviorView::Spawn(_) => BehaviorKind::Spawn,
        BehaviorView::Anim(_) => BehaviorKind::Anim,
    }
}

impl NPCBehavior {
    /// The kind of this behavior.
    pub fn kind(&self) -> (kind: BehaviorKind)
        ensures
            kind == kind_of(self@),
    {
        match self {
            NPCBehavior::Spawn(_) => BehaviorKind::Spawn,
            NPCBehavior::Anim(_) => BehaviorKind::Anim,
        }
    }
}

/// A behavior at work: which node it is, and where it stands.
#[derive(Debug)]
pub struct Node {
    pub id: NodeId,
    pub state: NodeState,
    pub behavior: NPCBehavior,
}

/// Mathematical value of a `Node`.
pub struct NodeView {
    pub id: NodeId,
    pub state: NodeState,
    pub behavior: BehaviorView,
}

impl View for Node {
    type V = NodeView;

    open spec fn view(&self) -> NodeView {
        NodeView { id: self.id, state: self.state, behavior: self.behavior@ }
    }
}

impl Clone for Node {
    fn clone(&self) -> (res: Self)
        ensures
            res@ == self@,
    {
        Node { id: self.id, state: self.state, behavior: self.behavior.clone() }
    }
}

/// Mathematical values of the nodes `nodes`.
pub open spec fn views(nodes: Seq<Node>) -> Seq<NodeView> {
    Seq::new(nodes.len(), |i: int| nodes[i]@)
}

/// What the visit of one node comes to.
pub struct NodeStep {
    pub node: NodeView,
    pub graph: GraphView,
}

/// What a round comes to.
pub struct Round {
    pub nodes: Seq<NodeView>,
    pub graph: GraphView,
}

/// The visit of the node `n` in the world `g`, with the script answers
/// `answers`.
pub open spec fn visit(n: NodeView, g: GraphView, answers: Answers) -> NodeStep {
    match n.state {
        NodeState::Starting => match n.behavior {
            BehaviorView::Spawn(s) => NodeStep {
                node: NodeView {
                    id: n.id,
                    state: NodeState::Running,
                    behavior: BehaviorView::Spawn(crate::spawn::started(s)),
                },
                graph: GraphView { objects: g.objects, pending: g.pending + despawns(s.scenes) },
            },
            BehaviorView::Anim(a) => NodeStep {
                node: NodeView {
                    id: n.id,
                    state: NodeState::Running,
                    behavior: BehaviorView::Anim(crate::anim::started(a)),
                },
                graph: g,
            },
        },
        NodeState::Running => match n.behavior {
            BehaviorView::Spawn(s) => {
                let step = crate::spawn::tick(s, n.id, g, answers);
                NodeStep {
                    node: NodeView {
                        id: n.id,
                        state: state_after(step.outcome),
                        behavior: BehaviorView::Spawn(step.node),
                    },
                    graph: step.graph,
                }
            },
            BehaviorView::Anim(a) => {
                let step = crate::anim::tick(a, n.id, g, answers);
                NodeStep {
                    node: NodeView {
                        id: n.id,
                        state: state_after(step.outcome),
                        behavior: BehaviorView::Anim(step.node),
                    },
                    graph: step.graph,
                }
            },
        },
        _ => NodeStep { node: n, graph: g },
    }
}

/// The round over the first `upto` of `nodes` in which every node of the
/// kind `kind` is visited, in the order of `nodes`.
pub open spec fn round(
    nodes: Seq<NodeView>,
    kind: BehaviorKind,
    g: GraphView,
    answers: Answers,
    upto: int,
) -> Round
    decreases upto,
{
    if upto <= 0 || upto > nodes.len() {
        Round { nodes, graph: g }
    } else {
        let earlier = round(nodes, kind, g, answers, upto - 1);
        if kind_of(nodes[upto - 1].behavior) == kind {
            let step = visit(nodes[upto - 1], earlier.graph, answers);
            Round { nodes: earlier.nodes.update(upto - 1, step.node), graph: step.graph }
        } else {
            earlier
        }
    }
}

/// A round leaves alone the nodes it has not come to.
pub proof fn lemma_round_untouched(
    nodes: Seq<NodeView>,
    kind: BehaviorKind,
    g: GraphView,
    answers: Answers,
    upto: int,
)
    requires
        upto <= nodes.len(),
    ensures
        round(nodes, kind, g, answers, upto).nodes.len() == nodes.len(),
        forall|i: int|
            upto <= i < nodes.len() && 0 <= i ==> round(nodes, kind, g, answers, upto).nodes[i]
                == nodes[i],
    decreases upto,
{
    if upto > 0 {
        lemma_round_untouched(nodes, kind, g, answers, upto - 1);
    }
}

impl Node {
    /// An idle node.
    pub fn new(id: NodeId, behavior: NPCBehavior) -> (node: Node)
        ensures
            node@ == (NodeView { id, state: NodeState::Idle, behavior: behavior@ }),
    {
        Node { id, state: NodeState::Idle, behavior }
    }

    /// Activates the node: whatever it was doing, it starts anew at its
    /// next visit.
    pub fn activate(&mut self)
        ensures
            final(self)@ == (NodeView {
                id: old(self)@.id,
                state: NodeState::Starting,
                behavior: old(self)@.behavior,
            }),
    {
        self.state = NodeState::Starting;
    }

    /// What the node shows to the tree around it; nothing while it is
    /// idle.
    pub fn outcome(&self) -> (outcome: Option<Outcome>)
        ensures
            outcome == crate::node::shown(self@.state),
    {
        self.state.outcome()
    }

    /// Visits the node: one tick of it, if it is active.
    pub fn tick(&mut self, graph: &mut ObjectGraph, scripts: &ScriptContext)
        requires
            old(graph).wf(),
        ensures
            final(graph).wf(),
            final(self)@ == visit(old(self)@, old(graph)@, scripts@).node,
            final(graph)@ == visit(old(self)@, old(graph)@, scripts@).graph,
    {
        let id = self.id;
        match self.state {
            NodeState::Starting => {
                match &mut self.behavior {
                    NPCBehavior::Spawn(s) => {
                        s.on_start(graph);
                    },
                    NPCBehavior::Anim(a) => {
                        a.on_start();
                    },
                }
                self.state = NodeState::Running;
            },
            NodeState::Running => {
                let outcome = match &mut self.behavior {
                    NPCBehavior::Spawn(s) => s.on_tick(id, graph, scripts),
                    NPCBehavior::Anim(a) => a.on_tick(id, graph, scripts),
                };
                self.state = NodeState::after(outcome);
            },
            _ => {},
        }
    }
}

/// Visits every node of the kind `kind`, in the order of `nodes`.
pub fn run_kind(
    nodes: &mut Vec<Node>,
    kind: BehaviorKind,
    graph: &mut ObjectGraph,
    scripts: &ScriptContext,
)
    requires
        old(graph).wf(),
    ensures
        final(graph).wf(),
        views(final(nodes)@) == round(
            views(old(nodes)@),
            kind,
            old(graph)@,
            scripts@,
            old(nodes)@.len() as int,
        ).nodes,
        final(graph)@ == round(
            views(old(nodes)@),
            kind,
            old(graph)@,
            scripts@,
            old(nodes)@.len() as int,
        ).graph,
{
    let ghost first = views(nodes@);
    let ghost world = graph@;
    let n: usize = nodes.len();
    let mut i: usize = 0;
    while i < n
        invariant
            n == nodes@.len(),
            n == first.len(),
            i <= n,
            graph.wf(),
            views(nodes@) == round(first, kind, world, scripts@, i as int).nodes,
            graph@ == round(first, kind, world, scripts@, i as int).graph,
        decreases n - i,
    {
        proof {
            lemma_round_untouched(first, kind, world, scripts@, i as int);
            assert(views(nodes@)[i as int] == first[i as int]);
        }
        let ghost earlier = views(nodes@);
        if nodes[i].behavior.kind() == kind {
            nodes[i].tick(graph, scripts);
            assert(views(nodes@) =~= earlier.update(i as int, nodes@[i as int]@));
        }
        i += 1;
    }
}

/// One whole tick: every spawn node is visited, then every anim node;
/// then what the removed nodes `removals` own is given up; and at the end
/// all that was requested is applied to the world.
pub open spec fn whole_tick(
    nodes: Seq<NodeView>,
    removals: Seq<NodeId>,
    g: GraphView,
    answers: Answers,
) -> Round {
    let spawns = round(nodes, BehaviorKind::Spawn, g, answers, nodes.len() as int);
    let anims = round(
        spawns.nodes,
        BehaviorKind::Anim,
        spawns.graph,
        answers,
        nodes.len() as int,
    );
    let filed = anims.graph.pending + removal_requests(anims.graph.objects, removals);
    Round {
        nodes: anims.nodes,
        graph: GraphView {
            objects: apply_all(anims.graph.objects, filed),
            pending: Seq::empty(),
        },
    }
}

/// Drives one whole tick.
pub fn advance(
    nodes: &mut Vec<Node>,
    removals: &Vec<NodeId>,
    graph: &mut ObjectGraph,
    scripts: &ScriptContext,
)
    requires
        old(graph).wf(),
    ensures
        final(graph).wf(),
        views(final(nodes)@) == whole_tick(
            views(old(nodes)@),
            removals@,
            old(graph)@,
            scripts@,
        ).nodes,
        final(graph)@ == whole_tick(views(old(nodes)@), removals@, old(graph)@, scripts@).graph,
{
    proof {
        lemma_round_untouched(
            views(nodes@),
            BehaviorKind::Spawn,
            graph@,
            scripts@,
            nodes@.len() as int,
        );
    }
    crate::spawn::run(nodes, graph, scripts);
    crate::anim::run(nodes, graph, scripts);
    removed(removals, graph);
    graph.commit();
    assert(graph@.pending =~= Seq::<RequestView>::empty());
}

} // verus!
