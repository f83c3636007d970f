use npc_behavior::graph::{ObjectGraph, Playback, Request, Stage};
use npc_behavior::ident::{NodeId, ObjectRef, SpawnOwned};

#[test]
fn new_world_is_empty() {
    let graph = ObjectGraph::new();
    assert_eq!(graph.len(), 0);
    assert_eq!(graph.pending_len(), 0);
    assert!(graph.roots().is_empty());
    assert_eq!(graph.stage(ObjectRef(0)), None);
    assert!(!graph.is_live(ObjectRef(0)));
}

#[test]
fn create_hands_out_rising_handles() {
    let mut graph = ObjectGraph::new();
    let world = graph.create("World", None);
    assert_eq!(world, Some(ObjectRef(0)));
    let town = graph.create("Town", world);
    assert_eq!(town, Some(ObjectRef(1)));
    assert_eq!(graph.len(), 2);
    assert_eq!(graph.name(ObjectRef(1)), Some(&"Town".to_string()));
    assert_eq!(graph.parent(ObjectRef(1)), Some(ObjectRef(0)));
    assert_eq!(graph.parent(ObjectRef(0)), None);
    assert_eq!(graph.owner(ObjectRef(1)), None);
    assert_eq!(graph.asset(ObjectRef(1)), None);
    assert_eq!(graph.stage(ObjectRef(1)), Some(Stage::Live));
    assert_eq!(graph.pending_len(), 0);
}

#[test]
fn create_below_a_missing_parent_does_nothing() {
    let mut graph = ObjectGraph::new();
    assert_eq!(graph.create("Orphan", Some(ObjectRef(7))), None);
    assert_eq!(graph.len(), 0);
    let a = graph.create("A", None).unwrap();
    graph.remove(a);
    assert_eq!(graph.create("B", Some(a)), None);
    assert_eq!(graph.len(), 1);
}

#[test]
fn children_and_roots_come_by_rising_handle() {
    let mut graph = ObjectGraph::new();
    let a = graph.create("A", None).unwrap();
    let b = graph.create("B", None).unwrap();
    let a1 = graph.create("x", Some(a)).unwrap();
    let b1 = graph.create("x", Some(b)).unwrap();
    let a2 = graph.create("y", Some(a)).unwrap();
    assert_eq!(graph.roots(), vec![a, b]);
    assert_eq!(graph.children(a), vec![a1, a2]);
    assert_eq!(graph.children(b), vec![b1]);
    assert!(graph.children(a1).is_empty());
    assert!(graph.has_content(a));
    assert!(!graph.has_content(a1));
    assert!(!graph.has_content(ObjectRef(99)));
}

#[test]
fn remove_takes_the_whole_subtree_and_nothing_else() {
    let mut graph = ObjectGraph::new();
    let a = graph.create("A", None).unwrap();
    let b = graph.create("B", Some(a)).unwrap();
    let c = graph.create("C", Some(b)).unwrap();
    let d = graph.create("D", Some(a)).unwrap();
    let e = graph.create("E", None).unwrap();
    graph.remove(b);
    assert_eq!(graph.stage(a), Some(Stage::Live));
    assert_eq!(graph.stage(b), Some(Stage::Removed));
    assert_eq!(graph.stage(c), Some(Stage::Removed));
    assert_eq!(graph.stage(d), Some(Stage::Live));
    assert_eq!(graph.stage(e), Some(Stage::Live));
    assert_eq!(graph.children(a), vec![d]);
    assert_eq!(graph.len(), 5);
}

#[test]
fn remove_of_an_unknown_handle_changes_nothing() {
    let mut graph = ObjectGraph::new();
    let a = graph.create("A", None).unwrap();
    graph.remove(ObjectRef(5));
    assert!(graph.is_live(a));
    assert_eq!(graph.len(), 1);
}

#[test]
fn requested_object_is_not_seen_before_commit() {
    let mut graph = ObjectGraph::new();
    let a = graph.create("A", None).unwrap();
    let h = graph.request_spawn("npc", "npc.glb", NodeId(3), Some(a)).unwrap();
    assert_eq!(h, ObjectRef(1));
    assert_eq!(graph.stage(h), Some(Stage::Requested));
    assert!(!graph.is_live(h));
    assert!(graph.children(a).is_empty());
    assert!(!graph.has_content(a));
    assert_eq!(graph.owner(h), Some(SpawnOwned(NodeId(3))));
    assert_eq!(graph.asset(h), Some(&"npc.glb".to_string()));
    assert_eq!(graph.name(h), Some(&"npc".to_string()));
    assert_eq!(graph.pending_len(), 1);
    assert_eq!(graph.pending(0), Some(&Request::Spawn { handle: h }));
    assert_eq!(graph.pending(1), None);
    graph.commit();
    assert_eq!(graph.pending_len(), 0);
    assert!(graph.is_live(h));
    assert_eq!(graph.children(a), vec![h]);
    assert!(graph.has_content(a));
}

#[test]
fn request_spawn_below_a_missing_parent_is_refused() {
    let mut graph = ObjectGraph::new();
    assert_eq!(graph.request_spawn("npc", "npc.glb", NodeId(1), Some(ObjectRef(4))), None);
    assert_eq!(graph.len(), 0);
    assert_eq!(graph.pending_len(), 0);
}

#[test]
fn spawn_below_a_parent_removed_in_the_same_tick_is_never_realized() {
    let mut graph = ObjectGraph::new();
    let a = graph.create("A", None).unwrap();
    graph.request_despawn(a);
    let h = graph.request_spawn("npc", "npc.glb", NodeId(1), Some(a)).unwrap();
    graph.commit();
    assert_eq!(graph.stage(a), Some(Stage::Removed));
    assert_eq!(graph.stage(h), Some(Stage::Removed));
}

#[test]
fn despawn_after_spawn_in_one_tick_removes_the_object() {
    let mut graph = ObjectGraph::new();
    let h = graph.request_spawn("npc", "npc.glb", NodeId(1), None).unwrap();
    graph.request_despawn(h);
    graph.commit();
    assert_eq!(graph.stage(h), Some(Stage::Removed));
    assert!(graph.roots().is_empty());
}

#[test]
fn despawn_is_deferred_to_commit() {
    let mut graph = ObjectGraph::new();
    let a = graph.create("A", None).unwrap();
    let b = graph.create("B", Some(a)).unwrap();
    graph.request_despawn(a);
    assert!(graph.is_live(a));
    assert!(graph.is_live(b));
    assert_eq!(graph.pending(0), Some(&Request::Despawn { target: a }));
    graph.commit();
    assert!(!graph.is_live(a));
    assert!(!graph.is_live(b));
}

#[test]
fn play_is_accepted_on_live_objects_only() {
    let mut graph = ObjectGraph::new();
    let a = graph.create("A", None).unwrap();
    assert!(graph.request_play(a, "walk", true));
    assert!(!graph.request_play(ObjectRef(9), "walk", true));
    assert_eq!(graph.pending_len(), 1);
    assert_eq!(graph.playback(a), None);
    graph.commit();
    assert_eq!(graph.playback(a), Some(&Playback { clip: "walk".to_string(), repeat: true }));
    assert!(graph.request_play(a, "run", false));
    graph.commit();
    assert_eq!(graph.playback(a), Some(&Playback { clip: "run".to_string(), repeat: false }));
}

#[test]
fn admits_tells_live_parents() {
    let mut graph = ObjectGraph::new();
    let a = graph.create("A", None).unwrap();
    assert!(graph.admits(None));
    assert!(graph.admits(Some(a)));
    assert!(!graph.admits(Some(ObjectRef(1))));
}

#[test]
fn the_world_keeps_its_shape() {
    let mut graph = ObjectGraph::new();
    assert!(graph.is_well_formed());
    let a = graph.create("A", None).unwrap();
    let b = graph.create("B", Some(a)).unwrap();
    graph.request_spawn("c", "c.glb", NodeId(1), Some(b)).unwrap();
    assert!(graph.is_well_formed());
    graph.request_despawn(a);
    graph.commit();
    assert!(graph.is_well_formed());
    graph.remove(b);
    assert!(graph.is_well_formed());
}
