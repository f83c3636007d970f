//! Identities: handles of world objects and of behavior nodes.

use vstd::prelude::*;

verus! {

/// Handle of one object of the world. A handle is given out once, when the
/// object is created or requested, and is never given to another object.
#[derive(Clone, Copy, PartialEq, Eq, Structural, Debug, Hash)]
pub struct ObjectRef(pub usize);

/// Identity of one behavior node, chosen by whoever builds the tree.
#[derive(Clone, Copy, PartialEq, Eq, Structural, Debug, Hash)]
pub struct NodeId(pub u64);

/// Tag carried by an object that a behavior node spawned: the node that
/// owns it.
#[derive(Clone, Copy, PartialEq, Eq, Structural, Debug, Hash)]
pub struct SpawnOwned(pub NodeId);

impl SpawnOwned {
    /// The owning node.
    pub fn node(&self) -> (id: NodeId)
        ensures
            id == self.0,
    {
        self.0
    }
}

} // verus!
