use npc_behavior::anim::Anim;
use npc_behavior::graph::{ObjectGraph, Playback, Request};
use npc_behavior::ident::NodeId;
use npc_behavior::node::Outcome;
use npc_behavior::path::PathExpression;
use npc_behavior::property::Property;
use npc_behavior::script::{ScriptContext, ScriptPoll};
use npc_behavior::value::{Value, ValueKind};

fn world() -> ObjectGraph {
    let mut graph = ObjectGraph::new();
    let w = graph.create("World", None).unwrap();
    graph.create("Bob", Some(w)).unwrap();
    graph.create("Bob", Some(w)).unwrap();
    graph.create("Alice", Some(w)).unwrap();
    graph
}

#[test]
fn anim_starts_the_clip_on_every_target_and_succeeds() {
    let mut graph = world();
    let scripts = ScriptContext::new();
    let mut anim = Anim::new(
        Property::literal(Value::text("walk.anim")),
        Property::path(PathExpression::new().child("Bob")),
        Property::literal(Value::Bool(true)),
    );
    anim.on_start();
    assert_eq!(anim.on_tick(NodeId(4), &mut graph, &scripts), Outcome::Success);
    assert_eq!(anim.clip, Some("walk.anim".to_string()));
    assert_eq!(graph.pending_len(), 2);
    let bobs = graph.select(None, &PathExpression::new().child("Bob"));
    assert_eq!(
        graph.pending(0),
        Some(&Request::Play { target: bobs[0], clip: "walk.anim".to_string(), repeat: true })
    );
    assert_eq!(
        graph.pending(1),
        Some(&Request::Play { target: bobs[1], clip: "walk.anim".to_string(), repeat: true })
    );
    assert_eq!(graph.playback(bobs[0]), None);
    graph.commit();
    let playing = Playback { clip: "walk.anim".to_string(), repeat: true };
    assert_eq!(graph.playback(bobs[0]), Some(&playing));
    assert_eq!(graph.playback(bobs[1]), Some(&playing));
    let alice = graph.select(None, &PathExpression::new().child("Alice"));
    assert_eq!(graph.playback(alice[0]), None);
}

#[test]
fn anim_whose_target_names_nothing_fails() {
    let mut graph = world();
    let scripts = ScriptContext::new();
    let mut anim = Anim::new(
        Property::literal(Value::text("walk.anim")),
        Property::path(PathExpression::new().child("Nobody")),
        Property::literal(Value::Bool(false)),
    );
    anim.on_start();
    assert_eq!(anim.on_tick(NodeId(4), &mut graph, &scripts), Outcome::Failure);
    assert!(anim.asset.value().is_some());
    assert!(anim.target.value().is_some());
    assert!(anim.repeat.value().is_some());
    assert_eq!(graph.pending_len(), 0);
}

#[test]
fn anim_asks_only_once() {
    let mut graph = world();
    let scripts = ScriptContext::new();
    let mut anim = Anim::new(
        Property::literal(Value::text("walk.anim")),
        Property::path(PathExpression::new().child("Alice")),
        Property::literal(Value::Bool(false)),
    );
    assert_eq!(anim.on_tick(NodeId(4), &mut graph, &scripts), Outcome::Success);
    assert_eq!(graph.pending_len(), 1);
    assert_eq!(anim.on_tick(NodeId(4), &mut graph, &scripts), Outcome::Running);
    assert_eq!(graph.pending_len(), 1);
}

#[test]
fn anim_waits_for_a_script_and_fails_on_its_error() {
    let mut graph = world();
    let mut scripts = ScriptContext::new();
    let mut anim = Anim::new(
        Property::script("clip()", ValueKind::Text),
        Property::path(PathExpression::new().child("Alice")),
        Property::script("again()", ValueKind::Bool),
    );
    anim.on_start();
    assert_eq!(anim.on_tick(NodeId(4), &mut graph, &scripts), Outcome::Running);
    assert_eq!(anim.clip, None);
    scripts.set(NodeId(4), "clip()", ScriptPoll::Ready(Value::text("run.anim")));
    assert_eq!(anim.on_tick(NodeId(4), &mut graph, &scripts), Outcome::Running);
    scripts.set(NodeId(4), "again()", ScriptPoll::Failed("no such function".to_string()));
    assert_eq!(anim.on_tick(NodeId(4), &mut graph, &scripts), Outcome::Failure);
    assert_eq!(anim.clip, None);
    assert_eq!(graph.pending_len(), 0);
}

#[test]
fn anim_start_clears_everything() {
    let mut graph = world();
    let scripts = ScriptContext::new();
    let mut anim = Anim::new(
        Property::literal(Value::text("walk.anim")),
        Property::path(PathExpression::new().child("Alice")),
        Property::literal(Value::Bool(false)),
    );
    anim.on_tick(NodeId(4), &mut graph, &scripts);
    assert!(anim.clip.is_some());
    anim.on_start();
    assert!(anim.clip.is_none());
    assert!(anim.asset.is_unset());
    assert!(anim.target.is_unset());
    assert!(anim.repeat.is_unset());
    // the next activation asks again
    graph.commit();
    assert_eq!(anim.on_tick(NodeId(4), &mut graph, &scripts), Outcome::Success);
    assert_eq!(graph.pending_len(), 1);
}

#[test]
fn anim_with_repeat_of_the_wrong_type_fails() {
    let mut graph = world();
    let scripts = ScriptContext::new();
    let mut anim = Anim::new(
        Property::literal(Value::text("walk.anim")),
        Property::path(PathExpression::new().child("Alice")),
        Property::literal(Value::text("yes")),
    );
    assert_eq!(anim.on_tick(NodeId(4), &mut graph, &scripts), Outcome::Failure);
    assert_eq!(graph.pending_len(), 0);
}
