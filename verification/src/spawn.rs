//! The leaf behavior that spawns objects.
//!
//! A spawn node resolves an asset, a name and, if it declares one, a
//! target path. When all are known it asks once for one object per target
//! that the path names, below that target, or for one object without a
//! parent if it declares no target. It owns what it asked for, and
//! succeeds once every one of its objects has content. It stays running
//! while one of them has none. It fails if a property cannot be resolved,
//! or if the path names nothing.

use crate::behavior::{round, run_kind, views, BehaviorKind, Node};
use crate::graph::{
    admits, has_content, is_live, requested_object, GraphView, ObjectGraph, ObjectView,
    RequestView,
};
use crate::ident::{NodeId, ObjectRef};
use crate::node::Outcome;
use crate::ownership::{despawns, own, releasable, release_all, release_if_owned};
use crate::property::{
    failed_as, fetched, in_state, ready_as, Property, PropertyView, ResolutionView,
};
use crate::script::{Answers, ScriptContext};
use crate::select::{lemma_selection_live, selection};
use crate::value::{Value, ValueKind, ValueView};
use vstd::prelude::*;

verus! {

/// A spawn node: its declared properties, and what it owns.
#[derive(Debug)]
pub struct Spawn {
    /// The asset to spawn; a text.
    pub asset: Property,
    /// The name that the spawned objects get; a text.
    pub name: Property,
    /// Where to spawn, if anywhere in particular; a path.
    pub target: Option<Property>,
    /// The objects this node asked for since it last started.
    pub scenes: Vec<ObjectRef>,
}

/// Mathematical value of a `Spawn`.
pub struct SpawnView {
    pub asset: PropertyView,
    pub name: PropertyView,
    pub target: Option<PropertyView>,
    pub scenes: Seq<ObjectRef>,
}

impl View for Spawn {
    type V = SpawnView;

    open spec fn view(&self) -> SpawnView {
        SpawnView {
            asset: self.asset@,
            name: self.name@,
            target: match self.target {
                Some(t) => Some(t@),
                None => None,
            },
            scenes: self.scenes@,
        }
    }
}

impl Clone for Spawn {
    fn clone(&self) -> (res: Self)
        ensures
            res@ == self@,
    {
        let target = match &self.target {
            Some(t) => Some(t.clone()),
            None => None,
        };
        let mut scenes: Vec<ObjectRef> = Vec::new();
        let n: usize = self.scenes.len();
        let mut k: usize = 0;
        while k < n
            invariant
                n == self.scenes@.len(),
                k <= n,
                scenes@ == self.scenes@.take(k as int),
            decreases n - k,
        {
            scenes.push(self.scenes[k]);
            assert(scenes@ =~= self.scenes@.take(k + 1));
            k += 1;
        }
        assert(self.scenes@.take(n as int) =~= self.scenes@);
        Spawn { asset: self.asset.clone(), name: self.name.clone(), target, scenes }
    }
}

/// What one tick of a spawn node comes to.
pub struct SpawnStep {
    pub node: SpawnView,
    pub graph: GraphView,
    pub outcome: Outcome,
}

/// The node `s` after a start: nothing resolved, nothing owned.
pub open spec fn started(s: SpawnView) -> SpawnView {
    SpawnView {
        asset: in_state(s.asset, ResolutionView::Unset),
        name: in_state(s.name, ResolutionView::Unset),
        target: match s.target {
            Some(t) => Some(in_state(t, ResolutionView::Unset)),
            None => None,
        },
        scenes: Seq::empty(),
    }
}

/// Every object in `scenes` is live and has content.
pub open spec fn materialized(g: Seq<ObjectView>, scenes: Seq<ObjectRef>) -> bool {
    forall|k: int| 0 <= k < scenes.len() ==> has_content(g, #[trigger] scenes[k])
}

/// Each of `targets` as a parent.
pub open spec fn as_parents(targets: Seq<ObjectRef>) -> Seq<Option<ObjectRef>> {
    Seq::new(targets.len(), |k: int| Some(targets[k]))
}

/// The parents to spawn below: none at all for a node without a target,
/// else what the resolved target path names, seen from the roots.
pub open spec fn spawn_parents(g: Seq<ObjectView>, target: Option<PropertyView>) -> Seq<
    Option<ObjectRef>,
> {
    match target {
        None => seq![None],
        Some(t) => match t.state {
            ResolutionView::Resolved(ValueView::Path(path)) => as_parents(
                selection(g, None, path),
            ),
            _ => Seq::empty(),
        },
    }
}

/// The `count` handles from `first` on.
pub open spec fn handles(first: nat, count: nat) -> Seq<ObjectRef> {
    Seq::new(count, |k: int| ObjectRef((first + k) as usize))
}

/// The world after the node `id` asked for one object called `name`, of
/// the asset `asset`, below each of `parents`.
pub open spec fn spawned(
    g: GraphView,
    name: Seq<char>,
    asset: Seq<char>,
    id: NodeId,
    parents: Seq<Option<ObjectRef>>,
) -> GraphView {
    GraphView {
        objects: g.objects + Seq::new(
            parents.len(),
            |k: int| requested_object(name, asset, id, parents[k]),
        ),
        pending: g.pending + Seq::new(
            parents.len(),
            |k: int| RequestView::Spawn { handle: ObjectRef((g.objects.len() + k) as usize) },
        ),
    }
}

/// The text that `p` holds, if it holds one.
pub open spec fn text_of(p: PropertyView) -> Seq<char> {
    match p.state {
        ResolutionView::Resolved(ValueView::Text(t)) => t,
        _ => Seq::empty(),
    }
}

/// One tick of the running spawn node `s`, which is the node `id`, in the
/// world `g`, with the script answers `answers`.
///
/// A node that owns objects has asked already and does not ask again: it
/// only looks whether they all have content. A node that owns nothing
/// fetches its properties in the order asset, name, target, and fails at
/// the first that cannot give a value of its type. If all three are
/// known, it asks for its objects; else it waits.
pub open spec fn tick(s: SpawnView, id: NodeId, g: GraphView, answers: Answers) -> SpawnStep {
    if s.scenes.len() > 0 {
        SpawnStep {
            node: s,
            graph: g,
            outcome: if materialized(g.objects, s.scenes) {
                Outcome::Success
            } else {
                Outcome::Running
            },
        }
    } else {
        let asset = fetched(s.asset, id, answers);
        if failed_as(asset, ValueKind::Text) {
            SpawnStep {
                node: SpawnView { asset, name: s.name, target: s.target, scenes: s.scenes },
                graph: g,
                outcome: Outcome::Failure,
            }
        } else {
            let name = fetched(s.name, id, answers);
            if failed_as(name, ValueKind::Text) {
                SpawnStep {
                    node: SpawnView { asset, name, target: s.target, scenes: s.scenes },
                    graph: g,
                    outcome: Outcome::Failure,
                }
            } else {
                let target = match s.target {
                    Some(t) => Some(fetched(t, id, answers)),
                    None => None,
                };
                let waiting = SpawnView { asset, name, target, scenes: s.scenes };
                if target matches Some(t) && failed_as(t, ValueKind::Path) {
                    SpawnStep { node: waiting, graph: g, outcome: Outcome::Failure }
                } else if ready_as(asset, ValueKind::Text) && ready_as(name, ValueKind::Text) && (
                target matches Some(t) ==> ready_as(t, ValueKind::Path)) {
                    let parents = spawn_parents(g.objects, target);
                    SpawnStep {
                        node: SpawnView {
                            asset,
                            name,
                            target,
                            scenes: handles(g.objects.len(), parents.len()),
                        },
                        graph: spawned(g, text_of(name), text_of(asset), id, parents),
                        outcome: if parents.len() == 0 {
                            Outcome::Failure
                        } else {
                            Outcome::Running
                        },
                    }
                } else {
                    SpawnStep { node: waiting, graph: g, outcome: Outcome::Running }
                }
            }
        }
    }
}

/// Whether every object in `scenes` is live and has content.
fn all_materialized(scenes: &Vec<ObjectRef>, graph: &ObjectGraph) -> (yes: bool)
    ensures
        yes == materialized(graph@.objects, scenes@),
{
    let n: usize = scenes.len();
    let mut k: usize = 0;
    while k < n
        invariant
            n == scenes@.len(),
            k <= n,
            forall|j: int| 0 <= j < k ==> has_content(graph@.objects, #[trigger] scenes@[j]),
        decreases n - k,
    {
        if !graph.has_content(scenes[k]) {
            return false;
        }
        k += 1;
    }
    true
}

impl Spawn {
    /// A spawn node with these properties, which owns nothing.
    pub fn new(asset: Property, name: Property, target: Option<Property>) -> (spawn: Spawn)
        ensures
            spawn@.asset == asset@,
            spawn@.name == name@,
            spawn@.target == match target {
                Some(t) => Some(t@),
                None => None,
            },
            spawn@.scenes.len() == 0,
    {
        Spawn { asset, name, target, scenes: Vec::new() }
    }

    /// Starts the node anew: every property is unset again, and the node
    /// lets go of everything it owns, which is removed at the end of the
    /// tick.
    pub fn on_start(&mut self, graph: &mut ObjectGraph)
        ensures
            final(self)@ == started(old(self)@),
            final(graph)@.objects == old(graph)@.objects,
            final(graph)@.pending == old(graph)@.pending + despawns(old(self)@.scenes),
    {
        self.asset.reset();
        self.name.reset();
        match &mut self.target {
            Some(t) => {
                t.reset();
            },
            None => {},
        }
        release_all(&mut self.scenes, graph);
        assert(self@.scenes =~= Seq::<ObjectRef>::empty());
    }

    /// One tick of the running node, which is the node `id`. What it does
    /// to the world it files as requests; the world as it is seen stays
    /// as it is until the end of the tick.
    pub fn on_tick(&mut self, id: NodeId, graph: &mut ObjectGraph, scripts: &ScriptContext) -> (outcome:
        Outcome)
        requires
            old(graph).wf(),
        ensures
            final(graph).wf(),
            final(self)@ == tick(old(self)@, id, old(graph)@, scripts@).node,
            final(graph)@ == tick(old(self)@, id, old(graph)@, scripts@).graph,
            outcome == tick(old(self)@, id, old(graph)@, scripts@).outcome,
    {
        if self.scenes.len() > 0 {
            return if all_materialized(&self.scenes, graph) {
                Outcome::Success
            } else {
                Outcome::Running
            };
        }
        self.asset.fetch(id, scripts);
        if self.asset.failed_as(ValueKind::Text) {
            return Outcome::Failure;
        }
        self.name.fetch(id, scripts);
        if self.name.failed_as(ValueKind::Text) {
            return Outcome::Failure;
        }
        match &mut self.target {
            Some(t) => {
                t.fetch(id, scripts);
            },
            None => {},
        }
        let target_failed = match &self.target {
            Some(t) => t.failed_as(ValueKind::Path),
            None => false,
        };
        if target_failed {
            return Outcome::Failure;
        }
        let asset: String = match self.asset.value() {
            Some(Value::Text(t)) => t.clone(),
            _ => {
                return Outcome::Running;
            },
        };
        let name: String = match self.name.value() {
            Some(Value::Text(t)) => t.clone(),
            _ => {
                return Outcome::Running;
            },
        };
        let parents: Vec<Option<ObjectRef>> = match &self.target {
            Some(t) => match t.value() {
                Some(Value::Path(path)) => {
                    let found = graph.select(None, path);
                    let mut parents: Vec<Option<ObjectRef>> = Vec::new();
                    let m: usize = found.len();
                    let mut j: usize = 0;
                    while j < m
                        invariant
                            m == found@.len(),
                            j <= m,
                            parents@ == as_parents(found@.take(j as int)),
                        decreases m - j,
                    {
                        parents.push(Some(found[j]));
                        assert(parents@ =~= as_parents(found@.take(j + 1)));
                        j += 1;
                    }
                    assert(found@.take(m as int) =~= found@);
                    proof {
                        lemma_selection_live(graph@.objects, None, path@);
                    }
                    parents
                },
                _ => {
                    return Outcome::Running;
                },
            },
            None => {
                let mut parents: Vec<Option<ObjectRef>> = Vec::new();
                parents.push(None);
                assert(parents@ =~= seq![None::<ObjectRef>]);
                parents
            },
        };
        let ghost before = graph@;
        let ghost node = self@;
        assert(parents@ == spawn_parents(before.objects, node.target));
        assert(forall|j: int| 0 <= j < parents@.len() ==> admits(before.objects, #[trigger] parents@[j]));
        let n: usize = parents.len();
        let mut k: usize = 0;
        assert(graph@.objects =~= spawned(before, name@, asset@, id, parents@.take(0)).objects);
        assert(graph@.pending =~= spawned(before, name@, asset@, id, parents@.take(0)).pending);
        assert(self.scenes@ =~= handles(before.objects.len(), 0));
        while k < n
            invariant
                n == parents@.len(),
                k <= n,
                graph.wf(),
                before.objects.len() + k <= usize::MAX,
                forall|j: int|
                    0 <= j < parents@.len() ==> admits(before.objects, #[trigger] parents@[j]),
                graph@ == spawned(before, name@, asset@, id, parents@.take(k as int)),
                self.scenes@ == handles(before.objects.len(), k as nat),
                self.asset@ == node.asset,
                self.name@ == node.name,
                self@.target == node.target,
            decreases n - k,
        {
            let ghost sofar = graph@;
            proof {
                assert(admits(before.objects, parents@[k as int]));
                match parents@[k as int] {
                    Some(p) => {
                        assert(is_live(before.objects, p));
                        assert(sofar.objects[p.0 as int] == before.objects[p.0 as int]);
                    },
                    None => {},
                }
                assert(admits(sofar.objects, parents@[k as int]));
            }
            match graph.request_spawn(name.as_str(), asset.as_str(), id, parents[k]) {
                Some(handle) => {
                    own(&mut self.scenes, graph, id, handle);
                },
                None => {},
            }
            proof {
                let next = spawned(before, name@, asset@, id, parents@.take(k + 1));
                assert(graph@.objects =~= next.objects);
                assert(graph@.pending =~= next.pending);
                assert(self.scenes@ =~= handles(before.objects.len(), (k + 1) as nat));
            }
            k += 1;
        }
        assert(parents@.take(n as int) =~= parents@);
        if self.scenes.len() == 0 {
            Outcome::Failure
        } else {
            Outcome::Running
        }
    }
}

/// The requests that remove what carries the tag of `node` among the
/// first `upto` slots and is not removed yet, by rising handle.
pub open spec fn released(g: Seq<ObjectView>, node: NodeId, upto: int) -> Seq<RequestView>
    decreases upto,
{
    if upto <= 0 {
        Seq::empty()
    } else {
        let rest = released(g, node, upto - 1);
        let r = ObjectRef((upto - 1) as usize);
        if releasable(g, r, node) {
            rest.push(RequestView::Despawn { target: r })
        } else {
            rest
        }
    }
}

/// The requests that remove what the nodes `removals` own, node by node.
pub open spec fn removal_requests(g: Seq<ObjectView>, removals: Seq<NodeId>) -> Seq<RequestView>
    decreases removals.len(),
{
    if removals.len() == 0 {
        Seq::empty()
    } else {
        removal_requests(g, removals.drop_last()) + released(
            g,
            removals.last(),
            g.len() as int,
        )
    }
}

/// Visits every spawn node, in the order of `nodes`.
pub fn run(nodes: &mut Vec<Node>, graph: &mut ObjectGraph, scripts: &ScriptContext)
    requires
        old(graph).wf(),
    ensures
        final(graph).wf(),
        views(final(nodes)@) == round(
            views(old(nodes)@),
            BehaviorKind::Spawn,
            old(graph)@,
            scripts@,
            old(nodes)@.len() as int,
        ).nodes,
        final(graph)@ == round(
            views(old(nodes)@),
            BehaviorKind::Spawn,
            old(graph)@,
            scripts@,
            old(nodes)@.len() as int,
        ).graph,
{
    run_kind(nodes, BehaviorKind::Spawn, graph, scripts);
}

/// Cleans up after the nodes `removals`, which were taken out of the
/// tree: files the request to remove every object that carries the tag of
/// one of them and is not removed yet. The nodes themselves are gone, so
/// their objects are found by the tag.
pub fn removed(removals: &Vec<NodeId>, graph: &mut ObjectGraph)
    ensures
        final(graph)@.objects == old(graph)@.objects,
        final(graph)@.pending == old(graph)@.pending + removal_requests(
            old(graph)@.objects,
            removals@,
        ),
{
    let ghost before = graph@;
    let n: usize = removals.len();
    let m: usize = graph.len();
    let mut k: usize = 0;
    assert(graph@.pending =~= before.pending + removal_requests(
        before.objects,
        removals@.take(0),
    ));
    while k < n
        invariant
            n == removals@.len(),
            m == before.objects.len(),
            k <= n,
            graph@.objects == before.objects,
            graph@.pending == before.pending + removal_requests(
                before.objects,
                removals@.take(k as int),
            ),
        decreases n - k,
    {
        let node = removals[k];
        let ghost base = graph@.pending;
        let mut i: usize = 0;
        assert(graph@.pending =~= base + released(before.objects, node, 0));
        while i < m
            invariant
                m == before.objects.len(),
                i <= m,
                graph@.objects == before.objects,
                graph@.pending == base + released(before.objects, node, i as int),
            decreases m - i,
        {
            release_if_owned(graph, ObjectRef(i), node);
            assert(graph@.pending =~= base + released(before.objects, node, i + 1));
            i += 1;
        }
        proof {
            assert(removals@.take(k + 1).drop_last() =~= removals@.take(k as int));
            assert(removals@.take(k + 1).last() == node);
            assert(graph@.pending =~= before.pending + removal_requests(
                before.objects,
                removals@.take(k + 1),
            ));
        }
        k += 1;
    }
    assert(removals@.take(n as int) =~= removals@);
}

} // verus!
