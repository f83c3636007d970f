//! Leaf behaviors of a behavior tree and the machinery they share: deferred
//! properties, path selection over a world of named objects, the per-node
//! execution protocol and the tracking of spawned objects.

pub mod anim;
pub mod behavior;
pub mod cleanup;
pub mod custody;
pub mod diagnostic;
pub mod frame;
pub mod graph;
pub mod ident;
pub mod lifecycle;
pub mod node;
pub mod ownership;
pub mod path;
pub mod property;
pub mod script;
pub mod select;
pub mod spawn;
pub mod value;

pub use anim::Anim;
pub use behavior::{BehaviorKind, NPCBehavior, Node};
pub use diagnostic::{Diagnostic, FailureReason};
pub use graph::{ObjectGraph, Playback, Request, Stage};
pub use ident::{NodeId, ObjectRef, SpawnOwned};
pub use node::{NodeState, Outcome};
pub use path::{PathError, PathExpression, Segment};
pub use property::{Property, Resolution, ResolveError, Source};
pub use spawn::Spawn;
pub use script::{ScriptContext, ScriptPoll};
pub use value::{Value, ValueKind};
