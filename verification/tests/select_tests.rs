use npc_behavior::graph::ObjectGraph;
use npc_behavior::ident::{NodeId, ObjectRef};
use npc_behavior::path::{PathExpression, Segment};

fn sample() -> (ObjectGraph, Vec<ObjectRef>) {
    // World
    //   Town
    //     Guard
    //     Guard
    //   Forest
    //     Guard
    // Sky
    //   Town
    let mut graph = ObjectGraph::new();
    let world = graph.create("World", None).unwrap();
    let town = graph.create("Town", Some(world)).unwrap();
    let guard_a = graph.create("Guard", Some(town)).unwrap();
    let forest = graph.create("Forest", Some(world)).unwrap();
    let guard_b = graph.create("Guard", Some(town)).unwrap();
    let guard_c = graph.create("Guard", Some(forest)).unwrap();
    let sky = graph.create("Sky", None).unwrap();
    let sky_town = graph.create("Town", Some(sky)).unwrap();
    (graph, vec![world, town, guard_a, forest, guard_b, guard_c, sky, sky_town])
}

#[test]
fn empty_path_without_origin_names_every_root() {
    let (graph, o) = sample();
    assert_eq!(graph.select(None, &PathExpression::new()), vec![o[0], o[6]]);
}

#[test]
fn empty_path_with_origin_names_the_origin() {
    let (graph, o) = sample();
    assert_eq!(graph.select(Some(o[1]), &PathExpression::new()), vec![o[1]]);
}

#[test]
fn origin_that_is_not_live_names_nothing() {
    let (mut graph, o) = sample();
    assert!(graph.select(Some(ObjectRef(100)), &PathExpression::new()).is_empty());
    graph.remove(o[1]);
    assert!(graph.select(Some(o[1]), &PathExpression::new()).is_empty());
    assert!(graph.select(Some(o[1]), &PathExpression::new().child("Guard")).is_empty());
}

#[test]
fn one_step_from_every_root() {
    let (graph, o) = sample();
    let path = PathExpression::new().child("Town");
    assert_eq!(graph.select(None, &path), vec![o[1], o[7]]);
}

#[test]
fn names_that_are_not_unique_branch() {
    let (graph, o) = sample();
    let path = PathExpression::new().child("Town").child("Guard");
    assert_eq!(graph.select(None, &path), vec![o[2], o[4]]);
    assert_eq!(graph.select(Some(o[0]), &path), vec![o[2], o[4]]);
    assert!(graph.select(Some(o[6]), &path).is_empty());
}

#[test]
fn wildcard_takes_every_child() {
    let (graph, o) = sample();
    let path = PathExpression::new().any_child().child("Guard");
    assert_eq!(graph.select(Some(o[0]), &path), vec![o[2], o[4], o[5]]);
    let all = PathExpression::new().any_child();
    assert_eq!(graph.select(None, &all), vec![o[1], o[3], o[7]]);
}

#[test]
fn a_path_that_matches_nothing_gives_the_empty_list() {
    let (graph, o) = sample();
    let path = PathExpression::new().child("Nowhere");
    assert!(graph.select(None, &path).is_empty());
    let deep = PathExpression::new().child("Town").child("Guard").child("Sword");
    assert!(graph.select(Some(o[0]), &deep).is_empty());
}

#[test]
fn the_first_step_does_not_match_the_origin_itself() {
    let (graph, _o) = sample();
    let path = PathExpression::new().child("World");
    assert!(graph.select(None, &path).is_empty());
}

#[test]
fn selection_is_repeatable_and_leaves_the_world_alone() {
    let (graph, _o) = sample();
    let path = PathExpression::new().any_child().child("Guard");
    let first = graph.select(None, &path);
    let second = graph.select(None, &path);
    assert_eq!(first, second);
    assert_eq!(graph.len(), 8);
    assert_eq!(graph.pending_len(), 0);
}

#[test]
fn selection_follows_the_world_between_calls() {
    let (mut graph, o) = sample();
    let path = PathExpression::new().child("Town").child("Guard");
    assert_eq!(graph.select(None, &path), vec![o[2], o[4]]);
    graph.remove(o[2]);
    assert_eq!(graph.select(None, &path), vec![o[4]]);
    let fresh = graph.create("Guard", Some(o[7])).unwrap();
    assert_eq!(graph.select(None, &path), vec![o[4], fresh]);
}

#[test]
fn selection_does_not_see_what_is_only_requested() {
    let (mut graph, o) = sample();
    let path = PathExpression::new().child("Town").child("Guard");
    let h = graph.request_spawn("Guard", "guard.glb", NodeId(1), Some(o[1])).unwrap();
    assert_eq!(graph.select(None, &path), vec![o[2], o[4]]);
    graph.commit();
    assert_eq!(graph.select(None, &path), vec![o[2], o[4], h]);
}

#[test]
fn path_builders_and_clone() {
    let path = PathExpression::new().child("a").any_child();
    assert_eq!(path.len(), 2);
    assert_eq!(path.segments, vec![Segment::Name("a".to_string()), Segment::Wildcard]);
    assert_eq!(path.clone(), path);
    assert_eq!(PathExpression::new().len(), 0);
    assert!(Segment::Wildcard.matches(&"anything".to_string()));
    assert!(Segment::Name("a".to_string()).matches(&"a".to_string()));
    assert!(!Segment::Name("a".to_string()).matches(&"b".to_string()));
}
