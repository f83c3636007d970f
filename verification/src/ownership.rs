//! Who owns what: the objects that a behavior node spawned.
//!
//! An object that a node spawns carries the node's tag from the moment it
//! is requested, and the node keeps its handle. The node lets go of its
//! objects when it starts anew; when the node itself is removed, its
//! objects are found again by their tag.

use crate::graph::{
    apply, apply_all, has_slot, owner_of, ObjectGraph, ObjectView, RequestView, Stage,
};
use crate::ident::{NodeId, ObjectRef, SpawnOwned};
use vstd::prelude::*;

verus! {

/// Every handle in `owned` names an object that carries the tag of `node`.
pub open spec fn owned_by(g: Seq<ObjectView>, node: NodeId, owned: Seq<ObjectRef>) -> bool {
    forall|k: int| 0 <= k < owned.len() ==> owner_of(g, #[trigger] owned[k]) == Some(SpawnOwned(node))
}

/// The requests that remove the objects `owned`, in their order.
pub open spec fn despawns(owned: Seq<ObjectRef>) -> Seq<RequestView> {
    Seq::new(owned.len(), |k: int| RequestView::Despawn { target: owned[k] })
}

/// `r` carries the tag of `node` and is not removed yet.
pub open spec fn releasable(g: Seq<ObjectView>, r: ObjectRef, node: NodeId) -> bool {
    owner_of(g, r) == Some(SpawnOwned(node)) && g[r.0 as int].stage != Stage::Removed
}

/// Registers `resource` as owned by `node`, by adding its handle to the
/// node's handles `owned`. Only an object that carries the node's tag is
/// registered, so that no object is ever held by two nodes.
pub fn own(owned: &mut Vec<ObjectRef>, graph: &ObjectGraph, node: NodeId, resource: ObjectRef) -> (registered:
    bool)
    ensures
        registered == (owner_of(graph@.objects, resource) == Some(SpawnOwned(node))),
        final(owned)@ == if registered {
            old(owned)@.push(resource)
        } else {
            old(owned)@
        },
{
    match graph.owner(resource) {
        Some(tag) => {
            if tag.node() == node {
                owned.push(resource);
                true
            } else {
                false
            }
        },
        None => false,
    }
}

/// Lets go of everything in `owned`: files the request to remove each
/// object, with all that lies below it, and empties `owned`. With nothing
/// owned this does nothing.
pub fn release_all(owned: &mut Vec<ObjectRef>, graph: &mut ObjectGraph)
    ensures
        final(owned)@.len() == 0,
        final(graph)@.objects == old(graph)@.objects,
        final(graph)@.pending == old(graph)@.pending + despawns(old(owned)@),
{
    let ghost waiting = graph@.pending;
    let n: usize = owned.len();
    let mut k: usize = 0;
    assert(graph@.pending =~= waiting + despawns(owned@.take(0)));
    while k < n
        invariant
            n == owned@.len(),
            k <= n,
            owned@ == old(owned)@,
            graph@.objects == old(graph)@.objects,
            graph@.pending == waiting + despawns(owned@.take(k as int)),
        decreases n - k,
    {
        graph.request_despawn(owned[k]);
        assert(graph@.pending =~= waiting + despawns(owned@.take(k + 1)));
        k += 1;
    }
    assert(owned@.take(n as int) =~= owned@);
    owned.clear();
}

/// Files the request to remove `resource` if it carries the tag of
/// `expected_owner` and is not removed yet, and says whether it did.
pub fn release_if_owned(graph: &mut ObjectGraph, resource: ObjectRef, expected_owner: NodeId) -> (released:
    bool)
    ensures
        released == releasable(old(graph)@.objects, resource, expected_owner),
        final(graph)@.objects == old(graph)@.objects,
        final(graph)@.pending == if released {
            old(graph)@.pending.push(RequestView::Despawn { target: resource })
        } else {
            old(graph)@.pending
        },
{
    let tagged = match graph.owner(resource) {
        Some(tag) => tag.node() == expected_owner,
        None => false,
    };
    if !tagged {
        return false;
    }
    match graph.stage(resource) {
        Some(Stage::Removed) => false,
        Some(_) => {
            graph.request_despawn(resource);
            true
        },
        None => false,
    }
}

/// No object is owned by two nodes: handles held under the tags of two
/// different nodes are different handles.
pub proof fn lemma_owners_exclusive(
    g: Seq<ObjectView>,
    a: NodeId,
    owned_a: Seq<ObjectRef>,
    b: NodeId,
    owned_b: Seq<ObjectRef>,
)
    requires
        owned_by(g, a, owned_a),
        owned_by(g, b, owned_b),
        a != b,
    ensures
        forall|i: int, j: int|
            0 <= i < owned_a.len() && 0 <= j < owned_b.len() ==> owned_a[i] != owned_b[j],
{
    assert forall|i: int, j: int|
        0 <= i < owned_a.len() && 0 <= j < owned_b.len() implies owned_a[i] != owned_b[j] by {
        assert(owner_of(g, owned_a[i]) == Some(SpawnOwned(a)));
        assert(owner_of(g, owned_b[j]) == Some(SpawnOwned(b)));
    }
}

/// A request never changes a tag.
pub proof fn lemma_apply_keeps_tags(g: Seq<ObjectView>, request: RequestView, r: ObjectRef)
    ensures
        owner_of(apply(g, request), r) == owner_of(g, r),
{
}

/// Requests never change a tag.
pub proof fn lemma_apply_all_keeps_tags(g: Seq<ObjectView>, requests: Seq<RequestView>, r: ObjectRef)
    ensures
        owner_of(apply_all(g, requests), r) == owner_of(g, r),
    decreases requests.len(),
{
    if requests.len() > 0 {
        lemma_apply_all_keeps_tags(g, requests.drop_last(), r);
        lemma_apply_keeps_tags(apply_all(g, requests.drop_last()), requests.last(), r);
    }
}

/// What a node owns it still owns after the end of the tick, and after
/// more slots were handed out.
pub proof fn lemma_ownership_lasts(
    g: Seq<ObjectView>,
    node: NodeId,
    owned: Seq<ObjectRef>,
    more: Seq<ObjectView>,
    requests: Seq<RequestView>,
)
    requires
        owned_by(g, node, owned),
    ensures
        owned_by(g + more, node, owned),
        owned_by(apply_all(g, requests), node, owned),
{
    assert forall|k: int| 0 <= k < owned.len() implies owner_of(g + more, #[trigger] owned[k])
        == Some(SpawnOwned(node)) by {
        assert(owner_of(g, owned[k]) == Some(SpawnOwned(node)));
        assert(has_slot(g, owned[k]));
        assert((g + more)[owned[k].0 as int] == g[owned[k].0 as int]);
    }
    assert forall|k: int| 0 <= k < owned.len() implies owner_of(
        apply_all(g, requests),
        #[trigger] owned[k],
    ) == Some(SpawnOwned(node)) by {
        lemma_apply_all_keeps_tags(g, requests, owned[k]);
    }
}

} // verus!
