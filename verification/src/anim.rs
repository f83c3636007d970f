//! The leaf behavior that plays an animation.
//!
//! An anim node resolves an asset, a target path and a repeat flag. When
//! all are known it asks once for the clip to be started on every object
//! that the path names, and is done: it succeeds if the path names at
//! least one object, for then every request was accepted, and fails if it
//! names none. It also fails if a property cannot be resolved. It does not
//! wait for the clip to load or to play.

use crate::behavior::{round, run_kind, views, BehaviorKind, Node};
use crate::graph::{is_live, GraphView, ObjectGraph, ObjectView, RequestView};
use crate::ident::{NodeId, ObjectRef};
use crate::node::Outcome;
use crate::property::{
    failed_as, fetched, in_state, ready_as, Property, PropertyView, ResolutionView,
};
use crate::script::{Answers, ScriptContext};
use crate::select::{lemma_selection_live, selection};
use crate::value::{Value, ValueKind, ValueView};
use vstd::prelude::*;

verus! {

/// An anim node: its declared properties, and the clip it asked for.
#[derive(Debug)]
pub struct Anim {
    /// The clip to play; a text.
    pub asset: Property,
    /// The objects to play it on; a path.
    pub target: Property,
    /// Whether the clip repeats; a truth value.
    pub repeat: Property,
    /// The clip this node asked for since it last started, if it asked.
    pub clip: Option<String>,
}

/// Mathematical value of an `Anim`.
pub struct AnimView {
    pub asset: PropertyView,
    pub target: PropertyView,
    pub repeat: PropertyView,
    pub clip: Option<Seq<char>>,
}

impl View for Anim {
    type V = AnimView;

    open spec fn view(&self) -> AnimView {
        AnimView {
            asset: self.asset@,
            target: self.target@,
            repeat: self.repeat@,
            clip: match self.clip {
                Some(c) => Some(c@),
                None => None,
            },
        }
    }
}

impl Clone for Anim {
    fn clone(&self) -> (res: Self)
        ensures
            res@ == self@,
    {
        let clip = match &self.clip {
            Some(c) => Some(c.clone()),
            None => None,
        };
        Anim {
            asset: self.asset.clone(),
            target: self.target.clone(),
            repeat: self.repeat.clone(),
            clip,
        }
    }
}

/// What one tick of an anim node comes to.
pub struct AnimStep {
    pub node: AnimView,
    pub graph: GraphView,
    pub outcome: Outcome,
}

/// The node `a` after a start: nothing resolved, no clip asked for.
pub open spec fn started(a: AnimView) -> AnimView {
    AnimView {
        asset: in_state(a.asset, ResolutionView::Unset),
        target: in_state(a.target, ResolutionView::Unset),
        repeat: in_state(a.repeat, ResolutionView::Unset),
        clip: None,
    }
}

/// The requests that start `clip` on each of `targets`, in their order.
pub open spec fn plays(targets: Seq<ObjectRef>, clip: Seq<char>, repeat: bool) -> Seq<
    RequestView,
> {
    Seq::new(targets.len(), |k: int| RequestView::Play { target: targets[k], clip, repeat })
}

/// The objects that the resolved target `p` names, seen from the roots.
pub open spec fn play_targets(g: Seq<ObjectView>, p: PropertyView) -> Seq<ObjectRef> {
    match p.state {
        ResolutionView::Resolved(ValueView::Path(path)) => selection(g, None, path),
        _ => Seq::empty(),
    }
}

/// The text that `p` holds, if it holds one.
pub open spec fn clip_of(p: PropertyView) -> Seq<char> {
    match p.state {
        ResolutionView::Resolved(ValueView::Text(t)) => t,
        _ => Seq::empty(),
    }
}

/// The truth value that `p` holds, if it holds one.
pub open spec fn flag_of(p: PropertyView) -> bool {
    match p.state {
        ResolutionView::Resolved(ValueView::Bool(b)) => b,
        _ => false,
    }
}

/// One tick of the running anim node `a`, which is the node `id`, in the
/// world `g`, with the script answers `answers`.
///
/// A node that has asked for its clip does nothing more. Else it fetches
/// its properties in the order asset, target, repeat, and fails at the
/// first that cannot give a value of its type. If all three are known, it
/// asks for the clip on every target; else it waits.
pub open spec fn tick(a: AnimView, id: NodeId, g: GraphView, answers: Answers) -> AnimStep {
    if a.clip.is_some() {
        AnimStep { node: a, graph: g, outcome: Outcome::Running }
    } else {
        let asset = fetched(a.asset, id, answers);
        if failed_as(asset, ValueKind::Text) {
            AnimStep {
                node: AnimView { asset, target: a.target, repeat: a.repeat, clip: a.clip },
                graph: g,
                outcome: Outcome::Failure,
            }
        } else {
            let target = fetched(a.target, id, answers);
            if failed_as(target, ValueKind::Path) {
                AnimStep {
                    node: AnimView { asset, target, repeat: a.repeat, clip: a.clip },
                    graph: g,
                    outcome: Outcome::Failure,
                }
            } else {
                let repeat = fetched(a.repeat, id, answers);
                let waiting = AnimView { asset, target, repeat, clip: a.clip };
                if failed_as(repeat, ValueKind::Bool) {
                    AnimStep { node: waiting, graph: g, outcome: Outcome::Failure }
                } else if ready_as(asset, ValueKind::Text) && ready_as(target, ValueKind::Path)
                    && ready_as(repeat, ValueKind::Bool) {
                    let targets = play_targets(g.objects, target);
                    AnimStep {
                        node: AnimView { asset, target, repeat, clip: Some(clip_of(asset)) },
                        graph: GraphView {
                            objects: g.objects,
                            pending: g.pending + plays(targets, clip_of(asset), flag_of(repeat)),
                        },
                        outcome: if targets.len() == 0 {
                            Outcome::Failure
                        } else {
                            Outcome::Success
                        },
                    }
                } else {
                    AnimStep { node: waiting, graph: g, outcome: Outcome::Running }
                }
            }
        }
    }
}

impl Anim {
    /// An anim node with these properties, which has asked for nothing.
    pub fn new(asset: Property, target: Property, repeat: Property) -> (anim: Anim)
        ensures
            anim@.asset == asset@,
            anim@.target == target@,
            anim@.repeat == repeat@,
            anim@.clip.is_none(),
    {
        Anim { asset, target, repeat, clip: None }
    }

    /// Starts the node anew: every property is unset again, and the clip
    /// it asked for is forgotten.
    pub fn on_start(&mut self)
        ensures
            final(self)@ == started(old(self)@),
    {
        self.asset.reset();
        self.target.reset();
        self.repeat.reset();
        self.clip = None;
    }

    /// One tick of the running node, which is the node `id`. What it does
    /// to the world it files as requests; the world as it is seen stays
    /// as it is until the end of the tick.
    pub fn on_tick(&mut self, id: NodeId, graph: &mut ObjectGraph, scripts: &ScriptContext) -> (outcome:
        Outcome)
        requires
            old(graph).wf(),
        ensures
            final(graph).wf(),
            final(self)@ == tick(old(self)@, id, old(graph)@, scripts@).node,
            final(graph)@ == tick(old(self)@, id, old(graph)@, scripts@).graph,
            outcome == tick(old(self)@, id, old(graph)@, scripts@).outcome,
    {
        if self.clip.is_some() {
            return Outcome::Running;
        }
        self.asset.fetch(id, scripts);
        if self.asset.failed_as(ValueKind::Text) {
            return Outcome::Failure;
        }
        self.target.fetch(id, scripts);
        if self.target.failed_as(ValueKind::Path) {
            return Outcome::Failure;
        }
        self.repeat.fetch(id, scripts);
        if self.repeat.failed_as(ValueKind::Bool) {
            return Outcome::Failure;
        }
        let clip: String = match self.asset.value() {
            Some(Value::Text(t)) => t.clone(),
            _ => {
                return Outcome::Running;
            },
        };
        let targets: Vec<ObjectRef> = match self.target.value() {
            Some(Value::Path(path)) => {
                proof {
                    lemma_selection_live(graph@.objects, None, path@);
                }
                graph.select(None, path)
            },
            _ => {
                return Outcome::Running;
            },
        };
        let repeat: bool = match self.repeat.value() {
            Some(Value::Bool(b)) => *b,
            _ => {
                return Outcome::Running;
            },
        };
        let ghost before = graph@;
        let n: usize = targets.len();
        let mut successes: usize = 0;
        let mut k: usize = 0;
        assert(graph@.pending =~= before.pending + plays(targets@.take(0), clip@, repeat));
        while k < n
            invariant
                n == targets@.len(),
                k <= n,
                successes == k,
                forall|j: int| 0 <= j < n ==> is_live(before.objects, #[trigger] targets@[j]),
                graph@.objects == before.objects,
                graph@.pending == before.pending + plays(targets@.take(k as int), clip@, repeat),
            decreases n - k,
        {
            if graph.request_play(targets[k], clip.as_str(), repeat) {
                successes += 1;
            }
            assert(graph@.pending =~= before.pending + plays(targets@.take(k + 1), clip@, repeat));
            k += 1;
        }
        assert(targets@.take(n as int) =~= targets@);
        self.clip = Some(clip);
        if n > 0 && successes == n {
            Outcome::Success
        } else {
            Outcome::Failure
        }
    }
}

/// Visits every anim node, in the order of `nodes`.
pub fn run(nodes: &mut Vec<Node>, graph: &mut ObjectGraph, scripts: &ScriptContext)
    requires
        old(graph).wf(),
    ensures
        final(graph).wf(),
        views(final(nodes)@) == round(
            views(old(nodes)@),
            BehaviorKind::Anim,
            old(graph)@,
            scripts@,
            old(nodes)@.len() as int,
        ).nodes,
        final(graph)@ == round(
            views(old(nodes)@),
            BehaviorKind::Anim,
            old(graph)@,
            scripts@,
            old(nodes)@.len() as int,
        ).graph,
{
    run_kind(nodes, BehaviorKind::Anim, graph, scripts);
}

} // verus!
