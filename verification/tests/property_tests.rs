use npc_behavior::ident::NodeId;
use npc_behavior::path::PathExpression;
use npc_behavior::property::{Property, Resolution, ResolveError, Source};
use npc_behavior::script::{ScriptContext, ScriptPoll};
use npc_behavior::value::{Value, ValueKind};

#[test]
fn literal_resolves_at_the_first_fetch() {
    let scripts = ScriptContext::new();
    let mut p = Property::literal(Value::text("npc.glb"));
    assert_eq!(p.expected, ValueKind::Text);
    assert!(p.is_unset());
    assert_eq!(p.fetch(NodeId(1), &scripts), Some(Ok(Value::text("npc.glb"))));
    assert_eq!(p.state, Resolution::Resolved(Value::text("npc.glb")));
    assert_eq!(p.value(), Some(&Value::text("npc.glb")));
}

#[test]
fn resolved_property_yields_nothing_more() {
    let mut scripts = ScriptContext::new();
    let mut p = Property::script("name()", ValueKind::Text);
    scripts.set(NodeId(1), "name()", ScriptPoll::Ready(Value::text("Bob")));
    assert_eq!(p.fetch(NodeId(1), &scripts), Some(Ok(Value::text("Bob"))));
    scripts.set(NodeId(1), "name()", ScriptPoll::Ready(Value::text("Alice")));
    assert_eq!(p.fetch(NodeId(1), &scripts), None);
    assert_eq!(p.value(), Some(&Value::text("Bob")));
    scripts.set(NodeId(1), "name()", ScriptPoll::Failed("boom".to_string()));
    assert_eq!(p.fetch(NodeId(1), &scripts), None);
    assert_eq!(p.value(), Some(&Value::text("Bob")));
}

#[test]
fn script_may_take_several_ticks() {
    let mut scripts = ScriptContext::new();
    let mut p = Property::script("slow()", ValueKind::Bool);
    assert_eq!(p.pending_expression(), Some(&"slow()".to_string()));
    assert_eq!(p.fetch(NodeId(1), &scripts), None);
    assert!(p.is_unset());
    scripts.set(NodeId(1), "slow()", ScriptPoll::Pending);
    assert_eq!(p.fetch(NodeId(1), &scripts), None);
    assert!(p.is_unset());
    scripts.set(NodeId(1), "slow()", ScriptPoll::Ready(Value::Bool(true)));
    assert_eq!(p.fetch(NodeId(1), &scripts), Some(Ok(Value::Bool(true))));
    assert_eq!(p.pending_expression(), None);
}

#[test]
fn script_error_is_terminal_until_reset() {
    let mut scripts = ScriptContext::new();
    let mut p = Property::script("bad()", ValueKind::Text);
    scripts.set(NodeId(1), "bad()", ScriptPoll::Failed("division by zero".to_string()));
    assert_eq!(
        p.fetch(NodeId(1), &scripts),
        Some(Err(ResolveError::Script("division by zero".to_string())))
    );
    assert!(p.is_errored());
    scripts.set(NodeId(1), "bad()", ScriptPoll::Ready(Value::text("fine")));
    assert_eq!(p.fetch(NodeId(1), &scripts), None);
    assert!(p.is_errored());
    p.reset();
    assert!(p.is_unset());
    assert_eq!(p.fetch(NodeId(1), &scripts), Some(Ok(Value::text("fine"))));
}

#[test]
fn value_of_another_type_is_a_mismatch() {
    let mut scripts = ScriptContext::new();
    let mut p = Property::script("flag()", ValueKind::Bool);
    scripts.set(NodeId(1), "flag()", ScriptPoll::Ready(Value::text("yes")));
    assert_eq!(
        p.fetch(NodeId(1), &scripts),
        Some(Err(ResolveError::TypeMismatch { expected: ValueKind::Bool, found: ValueKind::Text }))
    );
    assert!(p.is_errored());
    assert!(p.failed_as(ValueKind::Bool));
}

#[test]
fn mistyped_literal_is_a_mismatch() {
    let scripts = ScriptContext::new();
    let mut p = Property {
        source: Source::Literal(Value::Bool(true)),
        expected: ValueKind::Text,
        state: Resolution::Unset,
    };
    assert_eq!(
        p.fetch(NodeId(1), &scripts),
        Some(Err(ResolveError::TypeMismatch { expected: ValueKind::Text, found: ValueKind::Bool }))
    );
}

#[test]
fn path_source_resolves_to_the_path() {
    let scripts = ScriptContext::new();
    let path = PathExpression::new().child("World").any_child();
    let mut p = Property::path(path.clone());
    assert_eq!(p.expected, ValueKind::Path);
    assert_eq!(p.fetch(NodeId(1), &scripts), Some(Ok(Value::Path(path))));
    assert!(!p.failed_as(ValueKind::Path));
    assert!(p.failed_as(ValueKind::Text));
}

#[test]
fn answers_are_kept_by_node_and_expression() {
    let mut scripts = ScriptContext::new();
    let e = "f()".to_string();
    assert_eq!(scripts.poll(NodeId(1), &e), ScriptPoll::Pending);
    scripts.set(NodeId(1), "f()", ScriptPoll::Ready(Value::Bool(false)));
    assert_eq!(scripts.poll(NodeId(1), &e), ScriptPoll::Ready(Value::Bool(false)));
    assert_eq!(scripts.poll(NodeId(2), &e), ScriptPoll::Pending);
    assert_eq!(scripts.poll(NodeId(1), &"g()".to_string()), ScriptPoll::Pending);
    scripts.set(NodeId(2), "f()", ScriptPoll::Failed("no".to_string()));
    scripts.set(NodeId(1), "f()", ScriptPoll::Ready(Value::Bool(true)));
    assert_eq!(scripts.poll(NodeId(1), &e), ScriptPoll::Ready(Value::Bool(true)));
    assert_eq!(scripts.poll(NodeId(2), &e), ScriptPoll::Failed("no".to_string()));
}

#[test]
fn resolve_ignores_the_answer_for_a_literal() {
    let mut p = Property::literal(Value::Bool(true));
    assert_eq!(
        p.resolve(&ScriptPoll::Failed("unrelated".to_string())),
        Some(Ok(Value::Bool(true)))
    );
    assert_eq!(p.resolve(&ScriptPoll::Pending), None);
}

#[test]
fn value_kinds() {
    assert_eq!(Value::Bool(true).kind(), ValueKind::Bool);
    assert_eq!(Value::text("a").kind(), ValueKind::Text);
    assert_eq!(Value::Path(PathExpression::new()).kind(), ValueKind::Path);
    assert_eq!(Value::text("a"), Value::Text("a".to_string()));
    assert_eq!(Value::text("a").clone(), Value::text("a"));
}
