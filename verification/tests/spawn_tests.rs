use npc_behavior::graph::{ObjectGraph, Request, Stage};
use npc_behavior::ident::{NodeId, ObjectRef, SpawnOwned};
use npc_behavior::node::Outcome;
use npc_behavior::ownership::{own, release_all, release_if_owned};
use npc_behavior::path::PathExpression;
use npc_behavior::property::{Property, Resolution};
use npc_behavior::script::{ScriptContext, ScriptPoll};
use npc_behavior::spawn::{removed, Spawn};
use npc_behavior::value::{Value, ValueKind};

fn literal_spawn(target: Option<PathExpression>) -> Spawn {
    Spawn::new(
        Property::literal(Value::text("npc.glb")),
        Property::literal(Value::text("Bob")),
        target.map(Property::path),
    )
}

#[test]
fn spawn_without_target_spawns_one_object_without_parent() {
    let mut graph = ObjectGraph::new();
    let scripts = ScriptContext::new();
    let mut spawn = literal_spawn(None);
    spawn.on_start(&mut graph);
    assert!(spawn.scenes.is_empty());
    assert_eq!(spawn.on_tick(NodeId(7), &mut graph, &scripts), Outcome::Running);
    assert_eq!(spawn.scenes, vec![ObjectRef(0)]);
    let h = spawn.scenes[0];
    assert_eq!(graph.stage(h), Some(Stage::Requested));
    assert_eq!(graph.name(h), Some(&"Bob".to_string()));
    assert_eq!(graph.asset(h), Some(&"npc.glb".to_string()));
    assert_eq!(graph.owner(h), Some(SpawnOwned(NodeId(7))));
    assert_eq!(graph.parent(h), None);
    graph.commit();
    assert!(graph.is_live(h));
    // no content yet
    assert_eq!(spawn.on_tick(NodeId(7), &mut graph, &scripts), Outcome::Running);
    assert_eq!(spawn.on_tick(NodeId(7), &mut graph, &scripts), Outcome::Running);
    assert_eq!(graph.len(), 1);
    // the content arrives
    graph.create("mesh", Some(h)).unwrap();
    assert_eq!(spawn.on_tick(NodeId(7), &mut graph, &scripts), Outcome::Success);
    assert_eq!(spawn.scenes, vec![h]);
    assert_eq!(graph.len(), 2);
    assert_eq!(graph.pending_len(), 0);
}

#[test]
fn spawn_below_three_targets_waits_for_all_of_them() {
    let mut graph = ObjectGraph::new();
    let world = graph.create("World", None).unwrap();
    let a = graph.create("Spot", Some(world)).unwrap();
    let b = graph.create("Spot", Some(world)).unwrap();
    let c = graph.create("Spot", Some(world)).unwrap();
    let scripts = ScriptContext::new();
    let mut spawn = literal_spawn(Some(PathExpression::new().child("Spot")));
    assert_eq!(spawn.on_tick(NodeId(1), &mut graph, &scripts), Outcome::Running);
    assert_eq!(spawn.scenes.len(), 3);
    let s = spawn.scenes.clone();
    assert_eq!(graph.parent(s[0]), Some(a));
    assert_eq!(graph.parent(s[1]), Some(b));
    assert_eq!(graph.parent(s[2]), Some(c));
    assert_eq!(graph.pending_len(), 3);
    assert_eq!(graph.pending(0), Some(&Request::Spawn { handle: s[0] }));
    graph.commit();
    graph.create("mesh", Some(s[0])).unwrap();
    graph.create("mesh", Some(s[1])).unwrap();
    assert_eq!(spawn.on_tick(NodeId(1), &mut graph, &scripts), Outcome::Running);
    assert_eq!(spawn.on_tick(NodeId(1), &mut graph, &scripts), Outcome::Running);
    graph.create("mesh", Some(s[2])).unwrap();
    assert_eq!(spawn.on_tick(NodeId(1), &mut graph, &scripts), Outcome::Success);
    assert_eq!(spawn.scenes, s);
}

#[test]
fn spawn_whose_target_names_nothing_fails() {
    let mut graph = ObjectGraph::new();
    graph.create("World", None).unwrap();
    let scripts = ScriptContext::new();
    let mut spawn = literal_spawn(Some(PathExpression::new().child("Nowhere")));
    assert_eq!(spawn.on_tick(NodeId(1), &mut graph, &scripts), Outcome::Failure);
    assert!(spawn.scenes.is_empty());
    assert_eq!(graph.len(), 1);
    assert_eq!(graph.pending_len(), 0);
}

#[test]
fn spawn_waits_for_its_scripts_and_spawns_once() {
    let mut graph = ObjectGraph::new();
    let mut scripts = ScriptContext::new();
    let mut spawn = Spawn::new(
        Property::script("asset()", ValueKind::Text),
        Property::script("name()", ValueKind::Text),
        None,
    );
    spawn.on_start(&mut graph);
    assert_eq!(spawn.on_tick(NodeId(1), &mut graph, &scripts), Outcome::Running);
    assert!(spawn.scenes.is_empty());
    scripts.set(NodeId(1), "name()", ScriptPoll::Ready(Value::text("Bob")));
    assert_eq!(spawn.on_tick(NodeId(1), &mut graph, &scripts), Outcome::Running);
    assert!(spawn.scenes.is_empty());
    assert_eq!(spawn.name.state, Resolution::Resolved(Value::text("Bob")));
    assert_eq!(graph.len(), 0);
    scripts.set(NodeId(1), "asset()", ScriptPoll::Ready(Value::text("npc.glb")));
    assert_eq!(spawn.on_tick(NodeId(1), &mut graph, &scripts), Outcome::Running);
    assert_eq!(spawn.scenes.len(), 1);
    graph.commit();
    for _ in 0..5 {
        assert_eq!(spawn.on_tick(NodeId(1), &mut graph, &scripts), Outcome::Running);
        graph.commit();
    }
    assert_eq!(graph.len(), 1);
    assert_eq!(spawn.scenes.len(), 1);
}

#[test]
fn script_error_fails_the_spawn_without_any_request() {
    let mut graph = ObjectGraph::new();
    let mut scripts = ScriptContext::new();
    let mut spawn = Spawn::new(
        Property::literal(Value::text("npc.glb")),
        Property::script("name()", ValueKind::Text),
        None,
    );
    spawn.on_start(&mut graph);
    assert_eq!(spawn.on_tick(NodeId(1), &mut graph, &scripts), Outcome::Running);
    scripts.set(NodeId(1), "name()", ScriptPoll::Failed("boom".to_string()));
    assert_eq!(spawn.on_tick(NodeId(1), &mut graph, &scripts), Outcome::Failure);
    assert!(spawn.scenes.is_empty());
    assert_eq!(graph.len(), 0);
    assert_eq!(graph.pending_len(), 0);
    assert!(spawn.name.is_errored());
    // a failed property is not tried again
    scripts.set(NodeId(1), "name()", ScriptPoll::Ready(Value::text("Bob")));
    assert_eq!(spawn.on_tick(NodeId(1), &mut graph, &scripts), Outcome::Failure);
    assert_eq!(graph.len(), 0);
}

#[test]
fn first_failing_property_stops_the_fetching() {
    let mut graph = ObjectGraph::new();
    let mut scripts = ScriptContext::new();
    let mut spawn = Spawn::new(
        Property::script("asset()", ValueKind::Text),
        Property::literal(Value::text("Bob")),
        None,
    );
    scripts.set(NodeId(1), "asset()", ScriptPoll::Failed("boom".to_string()));
    assert_eq!(spawn.on_tick(NodeId(1), &mut graph, &scripts), Outcome::Failure);
    assert!(spawn.name.is_unset());
}

#[test]
fn property_of_the_wrong_type_fails_the_spawn() {
    let mut graph = ObjectGraph::new();
    let scripts = ScriptContext::new();
    let mut spawn = Spawn::new(
        Property::literal(Value::Bool(true)),
        Property::literal(Value::text("Bob")),
        None,
    );
    assert_eq!(spawn.on_tick(NodeId(1), &mut graph, &scripts), Outcome::Failure);
    assert_eq!(graph.len(), 0);
}

#[test]
fn start_resets_properties_and_releases_what_is_owned() {
    let mut graph = ObjectGraph::new();
    let scripts = ScriptContext::new();
    let mut spawn = literal_spawn(None);
    spawn.on_start(&mut graph);
    spawn.on_tick(NodeId(1), &mut graph, &scripts);
    graph.commit();
    let h = spawn.scenes[0];
    let mesh = graph.create("mesh", Some(h)).unwrap();
    spawn.on_start(&mut graph);
    assert!(spawn.scenes.is_empty());
    assert!(spawn.asset.is_unset());
    assert!(spawn.name.is_unset());
    assert_eq!(graph.pending(0), Some(&Request::Despawn { target: h }));
    // still there until the end of the tick
    assert!(graph.is_live(h));
    graph.commit();
    assert!(!graph.is_live(h));
    assert!(!graph.is_live(mesh));
    // a fresh activation spawns a fresh object
    assert_eq!(spawn.on_tick(NodeId(1), &mut graph, &scripts), Outcome::Running);
    assert_eq!(spawn.scenes.len(), 1);
    assert!(spawn.scenes[0] != h);
}

#[test]
fn start_with_nothing_owned_requests_nothing() {
    let mut graph = ObjectGraph::new();
    let mut spawn = literal_spawn(Some(PathExpression::new()));
    spawn.on_start(&mut graph);
    assert_eq!(graph.pending_len(), 0);
    assert!(spawn.target.as_ref().unwrap().is_unset());
}

#[test]
fn own_registers_only_what_carries_the_tag() {
    let mut graph = ObjectGraph::new();
    let plain = graph.create("World", None).unwrap();
    let mine = graph.request_spawn("a", "a.glb", NodeId(1), None).unwrap();
    let theirs = graph.request_spawn("b", "b.glb", NodeId(2), None).unwrap();
    let mut owned: Vec<ObjectRef> = Vec::new();
    assert!(own(&mut owned, &graph, NodeId(1), mine));
    assert!(!own(&mut owned, &graph, NodeId(1), theirs));
    assert!(!own(&mut owned, &graph, NodeId(1), plain));
    assert!(!own(&mut owned, &graph, NodeId(1), ObjectRef(50)));
    assert_eq!(owned, vec![mine]);
}

#[test]
fn release_all_on_nothing_is_a_no_op() {
    let mut graph = ObjectGraph::new();
    let mut owned: Vec<ObjectRef> = Vec::new();
    release_all(&mut owned, &mut graph);
    assert!(owned.is_empty());
    assert_eq!(graph.pending_len(), 0);
}

#[test]
fn release_all_requests_every_removal_in_order() {
    let mut graph = ObjectGraph::new();
    let a = graph.request_spawn("a", "a.glb", NodeId(1), None).unwrap();
    let b = graph.request_spawn("b", "b.glb", NodeId(1), None).unwrap();
    graph.commit();
    let mut owned = vec![a, b];
    release_all(&mut owned, &mut graph);
    assert!(owned.is_empty());
    assert_eq!(graph.pending(0), Some(&Request::Despawn { target: a }));
    assert_eq!(graph.pending(1), Some(&Request::Despawn { target: b }));
    assert_eq!(graph.pending_len(), 2);
}

#[test]
fn release_if_owned_checks_the_owner() {
    let mut graph = ObjectGraph::new();
    let a = graph.request_spawn("a", "a.glb", NodeId(1), None).unwrap();
    graph.commit();
    assert!(!release_if_owned(&mut graph, a, NodeId(2)));
    assert_eq!(graph.pending_len(), 0);
    assert!(release_if_owned(&mut graph, a, NodeId(1)));
    assert_eq!(graph.pending_len(), 1);
    graph.commit();
    assert!(!graph.is_live(a));
    // what is removed is not released again
    assert!(!release_if_owned(&mut graph, a, NodeId(1)));
    assert!(!release_if_owned(&mut graph, ObjectRef(9), NodeId(1)));
    assert_eq!(graph.pending_len(), 0);
}

#[test]
fn removed_cleans_up_by_tag() {
    let mut graph = ObjectGraph::new();
    let world = graph.create("World", None).unwrap();
    let a = graph.request_spawn("a", "a.glb", NodeId(1), Some(world)).unwrap();
    let b = graph.request_spawn("b", "b.glb", NodeId(2), None).unwrap();
    let c = graph.request_spawn("c", "c.glb", NodeId(1), None).unwrap();
    graph.commit();
    let mesh = graph.create("mesh", Some(a)).unwrap();
    removed(&vec![NodeId(1)], &mut graph);
    assert_eq!(graph.pending_len(), 2);
    assert_eq!(graph.pending(0), Some(&Request::Despawn { target: a }));
    assert_eq!(graph.pending(1), Some(&Request::Despawn { target: c }));
    graph.commit();
    assert!(graph.is_live(world));
    assert!(!graph.is_live(a));
    assert!(!graph.is_live(mesh));
    assert!(graph.is_live(b));
    assert!(!graph.is_live(c));
    // nothing is left to clean up
    removed(&vec![NodeId(1), NodeId(3)], &mut graph);
    assert_eq!(graph.pending_len(), 0);
}

#[test]
fn removed_without_removals_does_nothing() {
    let mut graph = ObjectGraph::new();
    graph.request_spawn("a", "a.glb", NodeId(1), None).unwrap();
    graph.commit();
    removed(&Vec::new(), &mut graph);
    assert_eq!(graph.pending_len(), 0);
}
