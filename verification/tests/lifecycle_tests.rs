use npc_behavior::anim::Anim;
use npc_behavior::behavior::{advance, run_kind, BehaviorKind, NPCBehavior, Node};
use npc_behavior::graph::{ObjectGraph, Stage};
use npc_behavior::ident::{NodeId, ObjectRef};
use npc_behavior::node::{NodeState, Outcome};
use npc_behavior::path::PathExpression;
use npc_behavior::property::Property;
use npc_behavior::script::{ScriptContext, ScriptPoll};
use npc_behavior::spawn::Spawn;
use npc_behavior::value::{Value, ValueKind};

fn spawn_node(id: u64, target: Option<PathExpression>) -> Node {
    Node::new(
        NodeId(id),
        NPCBehavior::Spawn(Spawn::new(
            Property::literal(Value::text("npc.glb")),
            Property::literal(Value::text("Bob")),
            target.map(Property::path),
        )),
    )
}

fn anim_node(id: u64, target: PathExpression) -> Node {
    Node::new(
        NodeId(id),
        NPCBehavior::Anim(Anim::new(
            Property::literal(Value::text("walk.anim")),
            Property::path(target),
            Property::literal(Value::Bool(true)),
        )),
    )
}

fn scenes(node: &Node) -> Vec<ObjectRef> {
    match &node.behavior {
        NPCBehavior::Spawn(s) => s.scenes.clone(),
        NPCBehavior::Anim(_) => Vec::new(),
    }
}

#[test]
fn idle_node_is_left_alone() {
    let mut graph = ObjectGraph::new();
    let scripts = ScriptContext::new();
    let mut node = spawn_node(1, None);
    assert_eq!(node.state, NodeState::Idle);
    assert_eq!(node.outcome(), None);
    node.tick(&mut graph, &scripts);
    assert_eq!(node.state, NodeState::Idle);
    assert_eq!(graph.len(), 0);
}

#[test]
fn node_starts_then_runs_then_succeeds() {
    let mut graph = ObjectGraph::new();
    let scripts = ScriptContext::new();
    let mut node = spawn_node(1, None);
    node.activate();
    assert_eq!(node.state, NodeState::Starting);
    assert_eq!(node.outcome(), Some(Outcome::Running));
    node.tick(&mut graph, &scripts);
    assert_eq!(node.state, NodeState::Running);
    assert_eq!(graph.len(), 0);
    node.tick(&mut graph, &scripts);
    assert_eq!(node.state, NodeState::Running);
    let held = scenes(&node);
    assert_eq!(held.len(), 1);
    graph.commit();
    node.tick(&mut graph, &scripts);
    assert_eq!(node.state, NodeState::Running);
    graph.create("mesh", Some(held[0])).unwrap();
    node.tick(&mut graph, &scripts);
    assert_eq!(node.state, NodeState::Success);
    assert_eq!(node.outcome(), Some(Outcome::Success));
    // success lasts
    graph.remove(held[0]);
    node.tick(&mut graph, &scripts);
    assert_eq!(node.state, NodeState::Success);
    assert_eq!(scenes(&node), held);
}

#[test]
fn failure_lasts_until_the_next_activation() {
    let mut graph = ObjectGraph::new();
    let mut scripts = ScriptContext::new();
    let mut node = Node::new(
        NodeId(1),
        NPCBehavior::Spawn(Spawn::new(
            Property::script("asset()", ValueKind::Text),
            Property::literal(Value::text("Bob")),
            None,
        )),
    );
    node.activate();
    node.tick(&mut graph, &scripts);
    node.tick(&mut graph, &scripts);
    assert_eq!(node.state, NodeState::Running);
    scripts.set(NodeId(1), "asset()", ScriptPoll::Failed("boom".to_string()));
    node.tick(&mut graph, &scripts);
    assert_eq!(node.state, NodeState::Failure);
    assert_eq!(node.outcome(), Some(Outcome::Failure));
    scripts.set(NodeId(1), "asset()", ScriptPoll::Ready(Value::text("npc.glb")));
    node.tick(&mut graph, &scripts);
    assert_eq!(node.state, NodeState::Failure);
    assert_eq!(graph.len(), 0);
    node.activate();
    node.tick(&mut graph, &scripts);
    node.tick(&mut graph, &scripts);
    assert_eq!(node.state, NodeState::Running);
    assert_eq!(scenes(&node).len(), 1);
}

#[test]
fn restart_before_the_objects_have_content_replaces_them() {
    let mut graph = ObjectGraph::new();
    let scripts = ScriptContext::new();
    let mut nodes = vec![spawn_node(1, None)];
    let none: Vec<NodeId> = Vec::new();
    nodes[0].activate();
    advance(&mut nodes, &none, &mut graph, &scripts);
    advance(&mut nodes, &none, &mut graph, &scripts);
    let first = scenes(&nodes[0]);
    assert_eq!(first.len(), 1);
    assert!(graph.is_live(first[0]));
    nodes[0].activate();
    advance(&mut nodes, &none, &mut graph, &scripts);
    assert_eq!(nodes[0].state, NodeState::Running);
    assert!(scenes(&nodes[0]).is_empty());
    assert_eq!(graph.stage(first[0]), Some(Stage::Removed));
    advance(&mut nodes, &none, &mut graph, &scripts);
    let second = scenes(&nodes[0]);
    assert_eq!(second.len(), 1);
    assert!(second[0] != first[0]);
    assert!(graph.is_live(second[0]));
}

#[test]
fn two_spawn_nodes_never_share_an_object() {
    let mut graph = ObjectGraph::new();
    let w = graph.create("World", None).unwrap();
    graph.create("Spot", Some(w)).unwrap();
    graph.create("Spot", Some(w)).unwrap();
    let scripts = ScriptContext::new();
    let mut nodes = vec![
        spawn_node(1, Some(PathExpression::new().child("Spot"))),
        spawn_node(2, Some(PathExpression::new().child("Spot"))),
    ];
    let none: Vec<NodeId> = Vec::new();
    nodes[0].activate();
    nodes[1].activate();
    advance(&mut nodes, &none, &mut graph, &scripts);
    advance(&mut nodes, &none, &mut graph, &scripts);
    let a = scenes(&nodes[0]);
    let b = scenes(&nodes[1]);
    assert_eq!(a.len(), 2);
    assert_eq!(b.len(), 2);
    for x in &a {
        assert!(!b.contains(x));
        assert_eq!(graph.owner(*x).unwrap().node(), NodeId(1));
    }
    for y in &b {
        assert_eq!(graph.owner(*y).unwrap().node(), NodeId(2));
    }
}

#[test]
fn what_one_node_spawns_in_a_tick_is_not_seen_by_another_in_that_tick() {
    let mut graph = ObjectGraph::new();
    let scripts = ScriptContext::new();
    let mut nodes = vec![spawn_node(1, None), anim_node(2, PathExpression::new())];
    let none: Vec<NodeId> = Vec::new();
    nodes[0].activate();
    advance(&mut nodes, &none, &mut graph, &scripts);
    nodes[1].activate();
    // the spawn node asks for its object; the anim node only starts
    advance(&mut nodes, &none, &mut graph, &scripts);
    assert_eq!(nodes[1].state, NodeState::Running);
    advance(&mut nodes, &none, &mut graph, &scripts);
    assert_eq!(nodes[1].state, NodeState::Success);
    let held = scenes(&nodes[0]);
    assert!(graph.playback(held[0]).is_some());
}

#[test]
fn anim_in_the_same_tick_as_the_spawn_misses_the_new_object() {
    let mut graph = ObjectGraph::new();
    let scripts = ScriptContext::new();
    let mut nodes = vec![spawn_node(1, None), anim_node(2, PathExpression::new())];
    let none: Vec<NodeId> = Vec::new();
    nodes[0].activate();
    nodes[1].activate();
    advance(&mut nodes, &none, &mut graph, &scripts);
    // spawn asks, anim selects among the roots: there is none yet
    advance(&mut nodes, &none, &mut graph, &scripts);
    assert_eq!(scenes(&nodes[0]).len(), 1);
    assert_eq!(nodes[1].state, NodeState::Failure);
}

#[test]
fn removal_of_a_node_removes_what_it_owned() {
    let mut graph = ObjectGraph::new();
    let scripts = ScriptContext::new();
    let mut nodes = vec![spawn_node(1, None), spawn_node(2, None)];
    let none: Vec<NodeId> = Vec::new();
    nodes[0].activate();
    nodes[1].activate();
    advance(&mut nodes, &none, &mut graph, &scripts);
    advance(&mut nodes, &none, &mut graph, &scripts);
    let gone = scenes(&nodes[0]);
    let kept = scenes(&nodes[1]);
    let mesh = graph.create("mesh", Some(gone[0])).unwrap();
    nodes.remove(0);
    advance(&mut nodes, &vec![NodeId(1)], &mut graph, &scripts);
    assert!(!graph.is_live(gone[0]));
    assert!(!graph.is_live(mesh));
    assert!(graph.is_live(kept[0]));
}

#[test]
fn run_kind_visits_only_its_kind() {
    let mut graph = ObjectGraph::new();
    graph.create("World", None).unwrap();
    let scripts = ScriptContext::new();
    let mut nodes = vec![spawn_node(1, None), anim_node(2, PathExpression::new())];
    nodes[0].activate();
    nodes[1].activate();
    run_kind(&mut nodes, BehaviorKind::Anim, &mut graph, &scripts);
    assert_eq!(nodes[0].state, NodeState::Starting);
    assert_eq!(nodes[1].state, NodeState::Running);
    npc_behavior::spawn::run(&mut nodes, &mut graph, &scripts);
    assert_eq!(nodes[0].state, NodeState::Running);
    assert_eq!(nodes[1].state, NodeState::Running);
    npc_behavior::anim::run(&mut nodes, &mut graph, &scripts);
    assert_eq!(nodes[1].state, NodeState::Success);
    assert_eq!(nodes[0].behavior.kind(), BehaviorKind::Spawn);
    assert_eq!(nodes[1].behavior.kind(), BehaviorKind::Anim);
}

#[test]
fn states_and_outcomes() {
    assert_eq!(NodeState::after(Outcome::Running), NodeState::Running);
    assert_eq!(NodeState::after(Outcome::Success), NodeState::Success);
    assert_eq!(NodeState::after(Outcome::Failure), NodeState::Failure);
    assert!(NodeState::Starting.is_active());
    assert!(NodeState::Running.is_active());
    assert!(!NodeState::Idle.is_active());
    assert!(!NodeState::Success.is_active());
    assert!(!NodeState::Failure.is_active());
}
