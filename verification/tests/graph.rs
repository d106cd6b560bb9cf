use messy_notes::graph::{
    delete_all_notes, delete_note, empty_canvas, empty_graph, get_canvas, get_graph, prune_graph,
    save_canvas_data, save_graph_data,
};
use messy_notes::model::{CanvasData, Edge, GraphMetadata};
use serde_json::Value;

fn json(text: &str) -> Value {
    serde_json::from_str(text).unwrap()
}

fn edge(id: &str, source: &str, target: &str) -> Edge {
    Edge { id: id.to_string(), source: source.to_string(), target: target.to_string(), label: None }
}

fn sample() -> GraphMetadata {
    GraphMetadata {
        nodes: json(r#"{"a": {"x": 1.5, "y": 2}, "b": {"x": 0, "y": 0}, "c": [1]}"#),
        edges: vec![edge("e1", "a", "b"), edge("e2", "b", "c"), edge("e3", "c", "a"), edge("e4", "b", "b")],
    }
}

#[test]
fn empty_graph_has_no_nodes_and_no_edges() {
    let g = empty_graph();
    assert_eq!(g.nodes, json("{}"));
    assert!(g.edges.is_empty());
}

#[test]
fn graph_defaults_to_the_empty_graph() {
    assert_eq!(get_graph(None), empty_graph());
    assert_eq!(get_graph(Some(sample())), sample());
}

#[test]
fn saving_a_graph_takes_nodes_and_edges_as_given() {
    let g = save_graph_data(json(r#"{"k": 1}"#), vec![edge("e", "s", "t")]);
    assert_eq!(g, GraphMetadata { nodes: json(r#"{"k": 1}"#), edges: vec![edge("e", "s", "t")] });
}

#[test]
fn deleting_a_note_takes_its_edges_and_its_node() {
    let g = prune_graph(sample(), "a");
    assert_eq!(g.edges, vec![edge("e2", "b", "c"), edge("e4", "b", "b")]);
    assert_eq!(g.nodes, json(r#"{"b": {"x": 0, "y": 0}, "c": [1]}"#));
}

#[test]
fn deleting_a_note_leaves_what_is_unrelated() {
    let g = prune_graph(sample(), "c");
    assert_eq!(g.edges, vec![edge("e1", "a", "b"), edge("e4", "b", "b")]);
    assert_eq!(g.nodes, json(r#"{"a": {"x": 1.5, "y": 2}, "b": {"x": 0, "y": 0}}"#));
}

#[test]
fn pruning_for_an_unknown_note_changes_nothing() {
    assert_eq!(prune_graph(sample(), "zzz"), sample());
}

#[test]
fn pruning_twice_is_pruning_once() {
    let once = prune_graph(sample(), "b");
    let twice = prune_graph(prune_graph(sample(), "b"), "b");
    assert_eq!(twice, once);
    assert_eq!(once.edges, vec![edge("e3", "c", "a")]);
}

#[test]
fn nodes_that_are_no_object_stay_as_they_are() {
    let g = GraphMetadata { nodes: json(r#"["a", "b"]"#), edges: vec![edge("e", "a", "b")] };
    let pruned = prune_graph(g, "a");
    assert_eq!(pruned.nodes, json(r#"["a", "b"]"#));
    assert!(pruned.edges.is_empty());
    let g = GraphMetadata { nodes: Value::Null, edges: Vec::new() };
    assert_eq!(prune_graph(g, "a").nodes, Value::Null);
}

#[test]
fn edge_labels_are_kept() {
    let mut e = edge("e", "x", "y");
    e.label = Some("relates".to_string());
    let g = GraphMetadata { nodes: json("{}"), edges: vec![e] };
    let pruned = prune_graph(g, "a");
    assert_eq!(pruned.edges[0].label, Some("relates".to_string()));
}

#[test]
fn a_graph_that_could_not_be_read_is_left_alone() {
    assert_eq!(delete_note(None, "a"), None);
    assert_eq!(delete_note(Some(sample()), "a"), Some(prune_graph(sample(), "a")));
}

#[test]
fn deleting_all_notes_counts_them_and_empties_the_graph() {
    let ids = vec!["a".to_string(), "b".to_string()];
    let (count, graph) = delete_all_notes(&ids);
    assert_eq!(count, 2);
    assert_eq!(graph, empty_graph());
    assert_eq!(delete_all_notes(&Vec::new()).0, 0);
}

#[test]
fn canvas_defaults_to_two_empty_arrays() {
    assert_eq!(empty_canvas(), CanvasData { nodes: json("[]"), edges: json("[]") });
    assert_eq!(get_canvas(None), empty_canvas());
    let stored = CanvasData { nodes: json("[1]"), edges: json(r#"{"a": 2}"#) };
    assert_eq!(get_canvas(Some(CanvasData { nodes: json("[1]"), edges: json(r#"{"a": 2}"#) })), stored);
}

#[test]
fn saving_a_canvas_takes_nodes_and_edges_as_given() {
    let c = save_canvas_data(json("[1, 2]"), json("[3]"));
    assert_eq!(c, CanvasData { nodes: json("[1, 2]"), edges: json("[3]") });
}
