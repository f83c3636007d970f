//! The world of named objects.
//!
//! Objects live in numbered slots; a handle is a slot number. A slot is
//! never reused, and the parent of an object always sits in an earlier slot
//! than the object itself, so the parent relation cannot form a cycle.
//!
//! Behaviors never edit the world while it is being read. They file
//! requests, which `commit` applies in order at the end of a tick. Whoever
//! keeps the world may also edit it at once, between ticks, with `create`
//! and `remove`: that is how content arrives below a spawned object.

use crate::ident::{NodeId, ObjectRef, SpawnOwned};
use vstd::prelude::*;

verus! {

/// Where a slot stands in its life.
#[derive(Clone, Copy, PartialEq, Eq, Structural, Debug)]
pub enum Stage {
    /// Asked for during this tick; not part of the world yet.
    Requested,
    /// Part of the world.
    Live,
    /// Gone for good.
    Removed,
}

/// The clip an object plays.
#[derive(Debug, PartialEq, Eq)]
pub struct Playback {
    pub clip: String,
    pub repeat: bool,
}

/// Mathematical value of a `Playback`.
pub struct PlaybackView {
    pub clip: Seq<char>,
    pub repeat: bool,
}

impl View for Playback {
    type V = PlaybackView;

    open spec fn view(&self) -> PlaybackView {
        PlaybackView { clip: self.clip@, repeat: self.repeat }
    }
}

impl Clone for Playback {
    fn clone(&self) -> (res: Self)
        ensures
            res@ == self@,
    {
        Playback { clip: self.clip.clone(), repeat: self.repeat }
    }
}

/// A change to the world that waits for the end of the tick.
#[derive(Debug, PartialEq, Eq)]
pub enum Request {
    /// Bring the requested object `handle` into the world.
    Spawn { handle: ObjectRef },
    /// Remove `target` and everything below it.
    Despawn { target: ObjectRef },
    /// Start `clip` on `target`.
    Play { target: ObjectRef, clip: String, repeat: bool },
}

/// Mathematical value of a `Request`.
pub enum RequestView {
    Spawn { handle: ObjectRef },
    Despawn { target: ObjectRef },
    Play { target: ObjectRef, clip: Seq<char>, repeat: bool },
}

impl View for Request {
    type V = RequestView;

    open spec fn view(&self) -> RequestView {
        match self {
            Request::Spawn { handle } => RequestView::Spawn { handle: *handle },
            Request::Despawn { target } => RequestView::Despawn { target: *target },
            Request::Play { target, clip, repeat } => RequestView::Play {
                target: *target,
                clip: clip@,
                repeat: *repeat,
            },
        }
    }
}

impl Clone for Request {
    fn clone(&self) -> (res: Self)
        ensures
            res@ == self@,
    {
        match self {
            Request::Spawn { handle } => Request::Spawn { handle: *handle },
            Request::Despawn { target } => Request::Despawn { target: *target },
            Request::Play { target, clip, repeat } => Request::Play {
                target: *target,
                clip: clip.clone(),
                repeat: *repeat,
            },
        }
    }
}

/// Mathematical value of one slot.
pub struct ObjectView {
    pub stage: Stage,
    pub name: Seq<char>,
    pub asset: Option<Seq<char>>,
    pub parent: Option<ObjectRef>,
    pub owner: Option<SpawnOwned>,
    pub playback: Option<PlaybackView>,
}

/// Mathematical value of the world: its slots, by handle, and the requests
/// that wait for the next `commit`, oldest first.
pub struct GraphView {
    pub objects: Seq<ObjectView>,
    pub pending: Seq<RequestView>,
}

struct Object {
    stage: Stage,
    name: String,
    asset: Option<String>,
    parent: Option<ObjectRef>,
    owner: Option<SpawnOwned>,
    playback: Option<Playback>,
}

impl View for Object {
    type V = ObjectView;

    closed spec fn view(&self) -> ObjectView {
        ObjectView {
            stage: self.stage,
            name: self.name@,
            asset: match self.asset {
                Some(a) => Some(a@),
                None => None,
            },
            parent: self.parent,
            owner: self.owner,
            playback: match self.playback {
                Some(p) => Some(p@),
                None => None,
            },
        }
    }
}

/// The world of objects, with the requests filed against it.
pub struct ObjectGraph {
    slots: Vec<Object>,
    pending: Vec<Request>,
}

impl View for ObjectGraph {
    type V = GraphView;

    closed spec fn view(&self) -> GraphView {
        GraphView {
            objects: Seq::new(self.slots@.len(), |i: int| self.slots@[i]@),
            pending: Seq::new(self.pending@.len(), |i: int| self.pending@[i]@),
        }
    }
}

/// `r` names a slot of `g`.
pub open spec fn has_slot(g: Seq<ObjectView>, r: ObjectRef) -> bool {
    r.0 < g.len()
}

/// `r` names an object that is part of the world.
pub open spec fn is_live(g: Seq<ObjectView>, r: ObjectRef) -> bool {
    has_slot(g, r) && g[r.0 as int].stage == Stage::Live
}

/// The shape every world has: a parent sits in an earlier slot than its
/// child, and the parent of a live object is live.
pub open spec fn well_formed(g: Seq<ObjectView>) -> bool {
    &&& g.len() <= usize::MAX
    &&& forall|i: int|
        0 <= i < g.len() ==> match (#[trigger] g[i]).parent {
            Some(p) => p.0 < i,
            None => true,
        }
    &&& forall|i: int|
        0 <= i < g.len() && (#[trigger] g[i]).stage == Stage::Live ==> match g[i].parent {
            Some(p) => is_live(g, p),
            None => true,
        }
}

/// Owner tag of the slot `r`, if it has one.
pub open spec fn owner_of(g: Seq<ObjectView>, r: ObjectRef) -> Option<SpawnOwned> {
    if has_slot(g, r) {
        g[r.0 as int].owner
    } else {
        None
    }
}

/// The slot `i` holds a live object whose parent is `parent`.
pub open spec fn is_child_of(g: Seq<ObjectView>, parent: ObjectRef, i: int) -> bool {
    0 <= i < g.len() && g[i].stage == Stage::Live && g[i].parent == Some(parent)
}

/// `r` is live and has content: at least one live object below it.
pub open spec fn has_content(g: Seq<ObjectView>, r: ObjectRef) -> bool {
    is_live(g, r) && exists|i: int| is_child_of(g, r, i)
}

/// Whether an object may be put below `parent`: it has no parent, or the
/// parent is part of the world.
pub open spec fn admits(g: Seq<ObjectView>, parent: Option<ObjectRef>) -> bool {
    match parent {
        Some(p) => is_live(g, p),
        None => true,
    }
}

/// `i` is `root` or lies below it.
pub open spec fn in_subtree(g: Seq<ObjectView>, root: int, i: int) -> bool
    decreases i,
{
    if i == root {
        true
    } else if 0 <= i < g.len() {
        match g[i].parent {
            Some(p) => p.0 < i && in_subtree(g, root, p.0 as int),
            None => false,
        }
    } else {
        false
    }
}

/// The slot `o` at another stage.
pub open spec fn at_stage(o: ObjectView, stage: Stage) -> ObjectView {
    ObjectView {
        stage,
        name: o.name,
        asset: o.asset,
        parent: o.parent,
        owner: o.owner,
        playback: o.playback,
    }
}

/// The slot `o` playing `clip`.
pub open spec fn playing(o: ObjectView, clip: Seq<char>, repeat: bool) -> ObjectView {
    ObjectView {
        stage: o.stage,
        name: o.name,
        asset: o.asset,
        parent: o.parent,
        owner: o.owner,
        playback: Some(PlaybackView { clip, repeat }),
    }
}

/// The world without `root` and everything below it.
pub open spec fn remove_subtree(g: Seq<ObjectView>, root: ObjectRef) -> Seq<ObjectView> {
    Seq::new(
        g.len(),
        |i: int|
            if in_subtree(g, root.0 as int, i) {
                at_stage(g[i], Stage::Removed)
            } else {
                g[i]
            },
    )
}

/// The world after the requested object `handle` was brought in: it
/// becomes live if its parent admits it, and is removed otherwise. Any
/// other slot is left alone.
pub open spec fn realize(g: Seq<ObjectView>, handle: ObjectRef) -> Seq<ObjectView> {
    if has_slot(g, handle) && g[handle.0 as int].stage == Stage::Requested {
        let stage = if admits(g, g[handle.0 as int].parent) {
            Stage::Live
        } else {
            Stage::Removed
        };
        g.update(handle.0 as int, at_stage(g[handle.0 as int], stage))
    } else {
        g
    }
}

/// The world after `clip` was started on `target`, if `target` is live.
pub open spec fn start_clip(
    g: Seq<ObjectView>,
    target: ObjectRef,
    clip: Seq<char>,
    repeat: bool,
) -> Seq<ObjectView> {
    if is_live(g, target) {
        g.update(target.0 as int, playing(g[target.0 as int], clip, repeat))
    } else {
        g
    }
}

/// The world after one request.
pub open spec fn apply(g: Seq<ObjectView>, request: RequestView) -> Seq<ObjectView> {
    match request {
        RequestView::Spawn { handle } => realize(g, handle),
        RequestView::Despawn { target } => remove_subtree(g, target),
        RequestView::Play { target, clip, repeat } => start_clip(g, target, clip, repeat),
    }
}

/// The world after the requests `requests`, applied oldest first.
pub open spec fn apply_all(g: Seq<ObjectView>, requests: Seq<RequestView>) -> Seq<
    ObjectView,
>
    decreases requests.len(),
{
    if requests.len() == 0 {
        g
    } else {
        apply(apply_all(g, requests.drop_last()), requests.last())
    }
}

/// A slot for a new object of the world itself.
pub open spec fn plain_object(name: Seq<char>, parent: Option<ObjectRef>) -> ObjectView {
    ObjectView {
        stage: Stage::Live,
        name,
        asset: None,
        parent,
        owner: None,
        playback: None,
    }
}

/// A slot for an object that the node `owner` asks for.
pub open spec fn requested_object(
    name: Seq<char>,
    asset: Seq<char>,
    owner: NodeId,
    parent: Option<ObjectRef>,
) -> ObjectView {
    ObjectView {
        stage: Stage::Requested,
        name,
        asset: Some(asset),
        parent,
        owner: Some(SpawnOwned(owner)),
        playback: None,
    }
}

/// Removing a subtree keeps the world well formed.
pub proof fn lemma_remove_keeps_shape(g: Seq<ObjectView>, root: ObjectRef)
    requires
        well_formed(g),
    ensures
        well_formed(remove_subtree(g, root)),
{
    let h = remove_subtree(g, root);
    assert forall|i: int| 0 <= i < h.len() && (#[trigger] h[i]).stage == Stage::Live implies match h[i].parent {
        Some(p) => is_live(h, p),
        None => true,
    } by {
        assert(g[i].stage == Stage::Live);
        assert(!in_subtree(g, root.0 as int, i));
        match g[i].parent {
            Some(p) => {
                assert(is_live(g, p));
                assert(!in_subtree(g, root.0 as int, p.0 as int));
            },
            None => {},
        }
    }
}

/// Bringing a requested object in keeps the world well formed.
pub proof fn lemma_realize_keeps_shape(g: Seq<ObjectView>, handle: ObjectRef)
    requires
        well_formed(g),
    ensures
        well_formed(realize(g, handle)),
{
    let h = realize(g, handle);
    assert forall|i: int| 0 <= i < h.len() && (#[trigger] h[i]).stage == Stage::Live implies match h[i].parent {
        Some(p) => is_live(h, p),
        None => true,
    } by {
        if i != handle.0 {
            assert(g[i].stage == Stage::Live);
        }
    }
}

/// Starting a clip keeps the world well formed.
pub proof fn lemma_start_clip_keeps_shape(
    g: Seq<ObjectView>,
    target: ObjectRef,
    clip: Seq<char>,
    repeat: bool,
)
    requires
        well_formed(g),
    ensures
        well_formed(start_clip(g, target, clip, repeat)),
{
    let h = start_clip(g, target, clip, repeat);
    assert forall|i: int| 0 <= i < h.len() && (#[trigger] h[i]).stage == Stage::Live implies match h[i].parent {
        Some(p) => is_live(h, p),
        None => true,
    } by {
        assert(g[i].stage == Stage::Live);
    }
}

/// A new slot below a parent that admits it keeps the world well formed.
pub proof fn lemma_push_keeps_shape(g: Seq<ObjectView>, o: ObjectView)
    requires
        well_formed(g),
        g.len() < usize::MAX,
        admits(g, o.parent),
    ensures
        well_formed(g.push(o)),
{
    let h = g.push(o);
    assert forall|i: int| 0 <= i < h.len() implies match (#[trigger] h[i]).parent {
        Some(p) => p.0 < i,
        None => true,
    } by {
        if i < g.len() {
            assert(h[i] == g[i]);
        }
    }
    assert forall|i: int| 0 <= i < h.len() && (#[trigger] h[i]).stage == Stage::Live implies match h[i].parent {
        Some(p) => is_live(h, p),
        None => true,
    } by {
        if i < g.len() {
            assert(h[i] == g[i]);
        }
    }
}

/// Applying requests keeps the world well formed and its size.
pub proof fn lemma_apply_all_keeps_shape(g: Seq<ObjectView>, requests: Seq<RequestView>)
    requires
        well_formed(g),
    ensures
        well_formed(apply_all(g, requests)),
        apply_all(g, requests).len() == g.len(),
    decreases requests.len(),
{
    if requests.len() > 0 {
        lemma_apply_all_keeps_shape(g, requests.drop_last());
        let mid = apply_all(g, requests.drop_last());
        match requests.last() {
            RequestView::Spawn { handle } => lemma_realize_keeps_shape(mid, handle),
            RequestView::Despawn { target } => lemma_remove_keeps_shape(mid, target),
            RequestView::Play { target, clip, repeat } => lemma_start_clip_keeps_shape(
                mid,
                target,
                clip,
                repeat,
            ),
        }
    }
}

/// Two worlds of the same size with the same parents have the same
/// subtrees.
pub proof fn lemma_subtree_by_parents(g: Seq<ObjectView>, h: Seq<ObjectView>, root: int, i: int)
    requires
        g.len() == h.len(),
        forall|j: int| 0 <= j < g.len() ==> (#[trigger] g[j]).parent == h[j].parent,
    ensures
        in_subtree(g, root, i) == in_subtree(h, root, i),
    decreases i,
{
    if i != root && 0 <= i < g.len() {
        assert(g[i].parent == h[i].parent);
        match g[i].parent {
            Some(p) => {
                if p.0 < i {
                    lemma_subtree_by_parents(g, h, root, p.0 as int);
                }
            },
            None => {},
        }
    }
}

/// A request changes neither the number of slots nor any parent, and what
/// is removed stays removed.
pub proof fn lemma_apply_frame(g: Seq<ObjectView>, request: RequestView)
    ensures
        apply(g, request).len() == g.len(),
        forall|j: int| 0 <= j < g.len() ==> (#[trigger] apply(g, request)[j]).parent == g[j].parent,
        forall|j: int|
            0 <= j < g.len() && g[j].stage == Stage::Removed ==> (#[trigger] apply(
                g,
                request,
            )[j]).stage == Stage::Removed,
{
}

/// Requests change neither the number of slots nor any parent, and what
/// is removed stays removed.
pub proof fn lemma_apply_all_frame(g: Seq<ObjectView>, requests: Seq<RequestView>)
    ensures
        apply_all(g, requests).len() == g.len(),
        forall|j: int|
            0 <= j < g.len() ==> (#[trigger] apply_all(g, requests)[j]).parent == g[j].parent,
        forall|j: int|
            0 <= j < g.len() && g[j].stage == Stage::Removed ==> (#[trigger] apply_all(
                g,
                requests,
            )[j]).stage == Stage::Removed,
    decreases requests.len(),
{
    if requests.len() > 0 {
        lemma_apply_all_frame(g, requests.drop_last());
        let mid = apply_all(g, requests.drop_last());
        lemma_apply_frame(mid, requests.last());
        let all = apply_all(g, requests);
        assert forall|j: int| 0 <= j < g.len() implies (#[trigger] all[j]).parent
            == g[j].parent by {
            assert(mid[j].parent == g[j].parent);
        }
        assert forall|j: int| 0 <= j < g.len() && g[j].stage == Stage::Removed implies (
        #[trigger] all[j]).stage == Stage::Removed by {
            assert(mid[j].stage == Stage::Removed);
        }
    }
}

/// In a well-formed world nothing is live below an object that is not.
pub proof fn lemma_nothing_lives_below_the_dead(g: Seq<ObjectView>, root: ObjectRef, x: int)
    requires
        well_formed(g),
        has_slot(g, root),
        !is_live(g, root),
        0 <= x < g.len(),
        in_subtree(g, root.0 as int, x),
    ensures
        g[x].stage != Stage::Live,
    decreases x,
{
    if x != root.0 {
        match g[x].parent {
            Some(p) => {
                lemma_nothing_lives_below_the_dead(g, root, p.0 as int);
            },
            None => {},
        }
    }
}

/// A request to remove an object is final: once the waiting requests are
/// applied, neither the object nor anything below it is part of the
/// world, whatever else was requested before or after.
pub proof fn lemma_despawn_is_final(
    g: Seq<ObjectView>,
    requests: Seq<RequestView>,
    k: int,
    target: ObjectRef,
    x: int,
)
    requires
        0 <= k < requests.len(),
        requests[k] == (RequestView::Despawn { target }),
        0 <= x < g.len(),
        in_subtree(g, target.0 as int, x),
    ensures
        apply_all(g, requests).len() == g.len(),
        apply_all(g, requests)[x].stage == Stage::Removed,
    decreases requests.len(),
{
    let mid = apply_all(g, requests.drop_last());
    lemma_apply_all_frame(g, requests.drop_last());
    lemma_apply_frame(mid, requests.last());
    if k == requests.len() - 1 {
        lemma_subtree_by_parents(g, mid, target.0 as int, x);
    } else {
        lemma_despawn_is_final(g, requests.drop_last(), k, target, x);
    }
}

impl ObjectGraph {
    /// The invariant of the type.
    pub open spec fn wf(&self) -> bool {
        well_formed(self@.objects)
    }

    /// An empty world with no request waiting.
    pub fn new() -> (graph: ObjectGraph)
        ensures
            graph.wf(),
            graph@.objects.len() == 0,
            graph@.pending.len() == 0,
    {
        ObjectGraph { slots: Vec::new(), pending: Vec::new() }
    }

    /// Whether the invariant of the type holds. It always does for a
    /// world that was made by `new` and changed by the methods of this
    /// type.
    pub fn is_well_formed(&self) -> (ok: bool)
        ensures
            ok == self.wf(),
    {
        let n: usize = self.slots.len();
        let mut i: usize = 0;
        while i < n
            invariant
                n == self.slots@.len(),
                i <= n,
                forall|j: int|
                    0 <= j < i ==> match (#[trigger] self@.objects[j]).parent {
                        Some(p) => p.0 < j && (self@.objects[j].stage == Stage::Live ==> is_live(
                            self@.objects,
                            p,
                        )),
                        None => true,
                    },
            decreases n - i,
        {
            match self.slots[i].parent {
                Some(p) => {
                    if p.0 >= i {
                        assert(self@.objects[i as int].parent == Some(p));
                        return false;
                    }
                    if self.slots[i].stage == Stage::Live && self.slots[p.0].stage != Stage::Live {
                        assert(self@.objects[i as int].parent == Some(p));
                        assert(self@.objects[i as int].stage == Stage::Live);
                        return false;
                    }
                },
                None => {},
            }
            i += 1;
        }
        true
    }

    /// Number of slots ever handed out.
    pub fn len(&self) -> (n: usize)
        ensures
            n == self@.objects.len(),
    {
        self.slots.len()
    }

    /// Number of requests that wait for the next `commit`.
    pub fn pending_len(&self) -> (n: usize)
        ensures
            n == self@.pending.len(),
    {
        self.pending.len()
    }

    /// Stage of the slot `r`, if there is such a slot.
    pub fn stage(&self, r: ObjectRef) -> (stage: Option<Stage>)
        ensures
            stage == if has_slot(self@.objects, r) {
                Some(self@.objects[r.0 as int].stage)
            } else {
                None
            },
    {
        if r.0 < self.slots.len() {
            Some(self.slots[r.0].stage)
        } else {
            None
        }
    }

    /// Whether `r` is part of the world.
    pub fn is_live(&self, r: ObjectRef) -> (live: bool)
        ensures
            live == is_live(self@.objects, r),
    {
        r.0 < self.slots.len() && self.slots[r.0].stage == Stage::Live
    }

    /// Name of the slot `r`, if there is such a slot.
    pub fn name(&self, r: ObjectRef) -> (name: Option<&String>)
        ensures
            match name {
                Some(n) => has_slot(self@.objects, r) && n@ == self@.objects[r.0 as int].name,
                None => !has_slot(self@.objects, r),
            },
    {
        if r.0 < self.slots.len() {
            Some(&self.slots[r.0].name)
        } else {
            None
        }
    }

    /// Asset that the slot `r` was spawned from, if it was spawned.
    pub fn asset(&self, r: ObjectRef) -> (asset: Option<&String>)
        ensures
            match asset {
                Some(a) => has_slot(self@.objects, r) && self@.objects[r.0 as int].asset == Some(
                    a@,
                ),
                None => !has_slot(self@.objects, r) || self@.objects[r.0 as int].asset.is_none(),
            },
    {
        if r.0 < self.slots.len() {
            match &self.slots[r.0].asset {
                Some(a) => Some(a),
                None => None,
            }
        } else {
            None
        }
    }

    /// Parent of the slot `r`; `None` for a slot without a parent and for
    /// a handle that names no slot.
    pub fn parent(&self, r: ObjectRef) -> (parent: Option<ObjectRef>)
        ensures
            parent == if has_slot(self@.objects, r) {
                self@.objects[r.0 as int].parent
            } else {
                None
            },
    {
        if r.0 < self.slots.len() {
            self.slots[r.0].parent
        } else {
            None
        }
    }

    /// Owner tag of the slot `r`; `None` for a slot that no node spawned
    /// and for a handle that names no slot.
    pub fn owner(&self, r: ObjectRef) -> (owner: Option<SpawnOwned>)
        ensures
            owner == owner_of(self@.objects, r),
    {
        if r.0 < self.slots.len() {
            self.slots[r.0].owner
        } else {
            None
        }
    }

    /// What the slot `r` plays, if anything.
    pub fn playback(&self, r: ObjectRef) -> (playback: Option<&Playback>)
        ensures
            match playback {
                Some(p) => has_slot(self@.objects, r) && self@.objects[r.0 as int].playback
                    == Some(p@),
                None => !has_slot(self@.objects, r) || self@.objects[r.0 as int].playback.is_none(),
            },
    {
        if r.0 < self.slots.len() {
            match &self.slots[r.0].playback {
                Some(p) => Some(p),
                None => None,
            }
        } else {
            None
        }
    }

    /// The request at place `k` of those that wait, oldest first.
    pub fn pending(&self, k: usize) -> (request: Option<&Request>)
        ensures
            match request {
                Some(r) => k < self@.pending.len() && r@ == self@.pending[k as int],
                None => k >= self@.pending.len(),
            },
    {
        if k < self.pending.len() {
            Some(&self.pending[k])
        } else {
            None
        }
    }

    /// Whether the live object `r` has content: a live object below it.
    pub fn has_content(&self, r: ObjectRef) -> (yes: bool)
        ensures
            yes == has_content(self@.objects, r),
    {
        if !self.is_live(r) {
            return false;
        }
        let n: usize = self.slots.len();
        let mut i: usize = 0;
        while i < n
            invariant
                n == self.slots@.len(),
                i <= n,
                is_live(self@.objects, r),
                forall|j: int| 0 <= j < i ==> !is_child_of(self@.objects, r, j),
            decreases n - i,
        {
            if self.slots[i].stage == Stage::Live && self.slots[i].parent == Some(r) {
                assert(is_child_of(self@.objects, r, i as int));
                return true;
            }
            i += 1;
        }
        false
    }

    /// Whether an object may be put below `parent`.
    pub fn admits(&self, parent: Option<ObjectRef>) -> (ok: bool)
        ensures
            ok == admits(self@.objects, parent),
    {
        match parent {
            Some(p) => self.is_live(p),
            None => true,
        }
    }

    /// Puts a new object into the world at once, below `parent` if one is
    /// given. Nothing is created below a parent that is not live.
    pub fn create(&mut self, name: &str, parent: Option<ObjectRef>) -> (made: Option<ObjectRef>)
        requires
            old(self).wf(),
        ensures
            final(self).wf(),
            final(self)@.pending == old(self)@.pending,
            match made {
                Some(r) => {
                    &&& admits(old(self)@.objects, parent)
                    &&& r.0 == old(self)@.objects.len()
                    &&& final(self)@.objects == old(self)@.objects.push(
                        plain_object(name@, parent),
                    )
                },
                None => {
                    &&& !admits(old(self)@.objects, parent)
                    &&& final(self)@.objects == old(self)@.objects
                },
            },
    {
        if !self.admits(parent) {
            return None;
        }
        let handle = ObjectRef(self.slots.len());
        let ghost before = self@.objects;
        self.slots.push(
            Object {
                stage: Stage::Live,
                name: name.to_owned(),
                asset: None,
                parent,
                owner: None,
                playback: None,
            },
        );
        let total: usize = self.slots.len();
        proof {
            assert(before.len() + 1 == total);
            assert(self@.objects =~= before.push(plain_object(name@, parent)));
            assert(self@.pending =~= old(self)@.pending);
            lemma_push_keeps_shape(before, plain_object(name@, parent));
        }
        Some(handle)
    }

    /// Files the request to spawn an object for the node `owner` and hands
    /// out its handle at once. The object carries the owner's tag from now
    /// on, and joins the world at the next `commit`. Nothing is requested
    /// below a parent that is not live.
    pub fn request_spawn(
        &mut self,
        name: &str,
        asset: &str,
        owner: NodeId,
        parent: Option<ObjectRef>,
    ) -> (handle: Option<ObjectRef>)
        requires
            old(self).wf(),
        ensures
            final(self).wf(),
            match handle {
                Some(r) => {
                    &&& admits(old(self)@.objects, parent)
                    &&& r.0 == old(self)@.objects.len()
                    &&& final(self)@.objects == old(self)@.objects.push(
                        requested_object(name@, asset@, owner, parent),
                    )
                    &&& final(self)@.pending == old(self)@.pending.push(
                        RequestView::Spawn { handle: r },
                    )
                },
                None => {
                    &&& !admits(old(self)@.objects, parent)
                    &&& final(self)@ == old(self)@
                },
            },
    {
        if !self.admits(parent) {
            return None;
        }
        let handle = ObjectRef(self.slots.len());
        let ghost before = self@;
        self.slots.push(
            Object {
                stage: Stage::Requested,
                name: name.to_owned(),
                asset: Some(asset.to_owned()),
                parent,
                owner: Some(SpawnOwned(owner)),
                playback: None,
            },
        );
        self.pending.push(Request::Spawn { handle });
        let total: usize = self.slots.len();
        proof {
            assert(before.objects.len() + 1 == total);
            assert(self@.objects =~= before.objects.push(
                requested_object(name@, asset@, owner, parent),
            ));
            assert(self@.pending =~= before.pending.push(RequestView::Spawn { handle }));
            lemma_push_keeps_shape(
                before.objects,
                requested_object(name@, asset@, owner, parent),
            );
        }
        Some(handle)
    }

    /// Files the request to remove `target` and everything below it.
    pub fn request_despawn(&mut self, target: ObjectRef)
        ensures
            final(self)@.objects == old(self)@.objects,
            final(self)@.pending == old(self)@.pending.push(RequestView::Despawn { target }),
    {
        let ghost before = self@;
        self.pending.push(Request::Despawn { target });
        proof {
            assert(self@.objects =~= before.objects);
            assert(self@.pending =~= before.pending.push(RequestView::Despawn { target }));
        }
    }

    /// Files the request to start `clip` on `target`, and says whether it
    /// was accepted: it is accepted, and filed, exactly when `target` is
    /// live.
    pub fn request_play(&mut self, target: ObjectRef, clip: &str, repeat: bool) -> (accepted:
        bool)
        ensures
            accepted == is_live(old(self)@.objects, target),
            final(self)@.objects == old(self)@.objects,
            final(self)@.pending == if accepted {
                old(self)@.pending.push(RequestView::Play { target, clip: clip@, repeat })
            } else {
                old(self)@.pending
            },
    {
        if !self.is_live(target) {
            return false;
        }
        let ghost before = self@;
        self.pending.push(Request::Play { target, clip: clip.to_owned(), repeat });
        proof {
            assert(self@.objects =~= before.objects);
            assert(self@.pending =~= before.pending.push(
                RequestView::Play { target, clip: clip@, repeat },
            ));
        }
        true
    }

    /// Removes `target` and everything below it at once.
    pub fn remove(&mut self, target: ObjectRef)
        requires
            old(self).wf(),
        ensures
            final(self).wf(),
            final(self)@.pending == old(self)@.pending,
            final(self)@.objects == remove_subtree(old(self)@.objects, target),
    {
        let n: usize = self.slots.len();
        let ghost before = self@.objects;
        let ghost waiting = self@.pending;
        let mut marks: Vec<bool> = Vec::new();
        let mut i: usize = 0;
        while i < n
            invariant
                n == self.slots@.len(),
                i <= n,
                marks@.len() == i,
                before.len() == n,
                well_formed(before),
                self@.pending == waiting,
                forall|j: int| 0 <= j < i ==> marks@[j] == in_subtree(before, target.0 as int, j),
                forall|j: int|
                    0 <= j < i ==> self@.objects[j] == remove_subtree(before, target)[j],
                forall|j: int| i <= j < n ==> self@.objects[j] == before[j],
            decreases n - i,
        {
            let marked = i == target.0 || match self.slots[i].parent {
                Some(p) => p.0 < i && marks[p.0],
                None => false,
            };
            proof {
                assert(self@.objects[i as int] == before[i as int]);
                assert(marked == in_subtree(before, target.0 as int, i as int));
            }
            if marked {
                self.slots[i].stage = Stage::Removed;
            }
            marks.push(marked);
            proof {
                assert(self@.pending =~= waiting);
            }
            i += 1;
        }
        proof {
            lemma_remove_keeps_shape(before, target);
            assert(self@.objects =~= remove_subtree(before, target));
        }
    }

    /// Brings the requested object `handle` into the world.
    fn realize(&mut self, handle: ObjectRef)
        requires
            old(self).wf(),
        ensures
            final(self).wf(),
            final(self)@.pending == old(self)@.pending,
            final(self)@.objects == realize(old(self)@.objects, handle),
    {
        let ghost before = self@;
        if handle.0 < self.slots.len() && self.slots[handle.0].stage == Stage::Requested {
            let parent = self.slots[handle.0].parent;
            if self.admits(parent) {
                self.slots[handle.0].stage = Stage::Live;
            } else {
                self.slots[handle.0].stage = Stage::Removed;
            }
        }
        proof {
            lemma_realize_keeps_shape(before.objects, handle);
            assert(self@.objects =~= realize(before.objects, handle));
            assert(self@.pending =~= before.pending);
        }
    }

    /// Starts `clip` on `target`, if `target` is live.
    fn start_clip(&mut self, target: ObjectRef, clip: &String, repeat: bool)
        requires
            old(self).wf(),
        ensures
            final(self).wf(),
            final(self)@.pending == old(self)@.pending,
            final(self)@.objects == start_clip(old(self)@.objects, target, clip@, repeat),
    {
        let ghost before = self@;
        if self.is_live(target) {
            self.slots[target.0].playback = Some(Playback { clip: clip.clone(), repeat });
        }
        proof {
            lemma_start_clip_keeps_shape(before.objects, target, clip@, repeat);
            assert(self@.objects =~= start_clip(before.objects, target, clip@, repeat));
            assert(self@.pending =~= before.pending);
        }
    }

    /// Applies the waiting requests, oldest first, and forgets them. This
    /// is the end of a tick: what was requested during the tick becomes
    /// visible now.
    pub fn commit(&mut self)
        requires
            old(self).wf(),
        ensures
            final(self).wf(),
            final(self)@.pending.len() == 0,
            final(self)@.objects == apply_all(old(self)@.objects, old(self)@.pending),
    {
        let ghost before = self@.objects;
        let ghost requests = self@.pending;
        let mut queue: Vec<Request> = Vec::new();
        core::mem::swap(&mut queue, &mut self.pending);
        proof {
            assert(self@.objects =~= before);
        }
        let n: usize = queue.len();
        let mut k: usize = 0;
        while k < n
            invariant
                n == queue@.len(),
                k <= n,
                requests.len() == n,
                forall|j: int| 0 <= j < n ==> requests[j] == queue@[j]@,
                self.wf(),
                self@.pending.len() == 0,
                self@.objects == apply_all(before, requests.take(k as int)),
            decreases n - k,
        {
            proof {
                assert(requests.take(k + 1).drop_last() =~= requests.take(k as int));
                assert(requests.take(k + 1).last() == requests[k as int]);
            }
            match &queue[k] {
                Request::Spawn { handle } => self.realize(*handle),
                Request::Despawn { target } => self.remove(*target),
                Request::Play { target, clip, repeat } => self.start_clip(*target, clip, *repeat),
            }
            k += 1;
        }
        proof {
            assert(requests.take(n as int) =~= requests);
        }
    }
}

} // verus!
