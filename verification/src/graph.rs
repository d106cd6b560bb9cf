//! The relationship graph between notes and the canvas of a note, and what
//! becomes of the graph when notes are deleted.

use vstd::prelude::*;
use serde_json::Value;
use crate::json::{array_value, empty_object, json_fields, json_items, remove_member};
use crate::model::{edge_views, CanvasData, Edge, EdgeView, GraphMetadata};
use crate::text::same_text;

verus! {

/// The graph without nodes and without edges.
pub fn empty_graph() -> (g: GraphMetadata)
    ensures
        json_fields(g.nodes) == Some(Map::<Seq<char>, Value>::empty()),
        g.edges@.len() == 0,
{
    GraphMetadata { nodes: empty_object(), edges: Vec::new() }
}

/// The graph of the store: the stored one, or the empty graph where none is
/// stored.
pub fn get_graph(stored: Option<GraphMetadata>) -> (g: GraphMetadata)
    ensures
        match stored {
            Some(s) => g == s,
            None => json_fields(g.nodes) == Some(Map::<Seq<char>, Value>::empty())
                && g.edges@.len() == 0,
        },
{
    match stored {
        Some(s) => s,
        None => empty_graph(),
    }
}

/// The graph to store for the given nodes and edges: exactly these, whatever
/// was stored before.
pub fn save_graph_data(nodes: Value, edges: Vec<Edge>) -> (g: GraphMetadata)
    ensures
        g.nodes == nodes,
        g.edges == edges,
{
    GraphMetadata { nodes, edges }
}

/// Whether an edge starts or ends at the note `id`.
pub open spec fn touches(edge: EdgeView, id: Seq<char>) -> bool {
    edge.source == id || edge.target == id
}

/// The edges that neither start nor end at the note `id`, in their order.
pub open spec fn edges_without(edges: Seq<EdgeView>, id: Seq<char>) -> Seq<EdgeView> {
    edges.filter(|e: EdgeView| !touches(e, id))
}

/// Whether `after` is what the nodes `before` become when the note `id` is
/// forgotten: an object loses the member under that id and keeps the others;
/// a value that has no such member stays as it is.
pub open spec fn nodes_without(before: Value, id: Seq<char>, after: Value) -> bool {
    match json_fields(before) {
        Some(members) => {
            &&& json_fields(after) == Some(members.remove(id))
            &&& !members.contains_key(id) ==> after == before
        },
        None => after == before,
    }
}

/// Takes the note `id` out of the graph: every edge that starts or ends at the
/// note leaves, and so does what the nodes hold under its id. All else stays.
pub fn prune_graph(graph: GraphMetadata, id: &str) -> (g: GraphMetadata)
    ensures
        edge_views(g.edges@) == edges_without(edge_views(graph.edges@), id@),
        nodes_without(graph.nodes, id@, g.nodes),
{
    let ghost input = graph.edges@;
    let ghost views = edge_views(graph.edges@);
    let ghost nodes_before = graph.nodes;
    let mut nodes = graph.nodes;
    let _ = remove_member(&mut nodes, id);
    proof {
        if json_fields(nodes_before) is Some && !json_fields(nodes_before)->0.contains_key(id@) {
            assert(json_fields(nodes_before)->0.remove(id@) =~= json_fields(nodes_before)->0);
        }
    }
    assert(nodes_without(nodes_before, id@, nodes));
    let mut kept: Vec<Edge> = Vec::new();
    proof {
        assert(views.take(0) == Seq::<EdgeView>::empty());
        reveal(Seq::filter);
    }
    for edge in it: graph.edges
        invariant
            it.seq() == input,
            views == edge_views(input),
            nodes_without(nodes_before, id@, nodes),
            edge_views(kept@) == edges_without(views.take(it.index() as int), id@),
    {
        proof {
            let k = it.index() as int;
            assert(views.take(k + 1) == views.take(k).push(edge@));
            views.take(k).lemma_filter_push(edge@, |e: EdgeView| !touches(e, id@));
        }
        if !same_text(edge.source.as_str(), id) && !same_text(edge.target.as_str(), id) {
            let ghost before = edge_views(kept@);
            kept.push(edge);
            assert(edge_views(kept@) == before.push(edge@));
        }
    }
    assert(views.take(input.len() as int) == views);
    GraphMetadata { nodes, edges: kept }
}

/// What the deletion of the note `id` does to the graph. `None` stands for a
/// graph that could not be read: it is left alone.
pub fn delete_note(graph: Option<GraphMetadata>, id: &str) -> (r: Option<GraphMetadata>)
    ensures
        match graph {
            Some(g) => r matches Some(pruned) && edge_views(pruned.edges@) == edges_without(
                edge_views(g.edges@),
                id@,
            ) && nodes_without(g.nodes, id@, pruned.nodes),
            None => r is None,
        },
{
    match graph {
        Some(g) => Some(prune_graph(g, id)),
        None => None,
    }
}

/// What the deletion of all notes leaves, given the ids of the records that
/// go: their number, and the empty graph.
pub fn delete_all_notes(ids: &Vec<String>) -> (r: (usize, GraphMetadata))
    ensures
        r.0 == ids@.len(),
        json_fields(r.1.nodes) == Some(Map::<Seq<char>, Value>::empty()),
        r.1.edges@.len() == 0,
{
    (ids.len(), empty_graph())
}

/// The canvas without nodes and without edges: two empty arrays.
pub fn empty_canvas() -> (c: CanvasData)
    ensures
        json_items(c.nodes) == Some(Seq::<Value>::empty()),
        json_items(c.edges) == Some(Seq::<Value>::empty()),
{
    CanvasData { nodes: array_value(Vec::new()), edges: array_value(Vec::new()) }
}

/// The canvas of a note: the stored one, or the empty canvas where none is
/// stored.
pub fn get_canvas(stored: Option<CanvasData>) -> (c: CanvasData)
    ensures
        match stored {
            Some(s) => c == s,
            None => json_items(c.nodes) == Some(Seq::<Value>::empty()) && json_items(c.edges)
                == Some(Seq::<Value>::empty()),
        },
{
    match stored {
        Some(s) => s,
        None => empty_canvas(),
    }
}

/// The canvas to store for the given nodes and edges: exactly these, whatever
/// was stored before.
pub fn save_canvas_data(nodes: Value, edges: Value) -> (c: CanvasData)
    ensures
        c.nodes == nodes,
        c.edges == edges,
{
    CanvasData { nodes, edges }
}

/// Where no edge starts or ends at the note, no edge leaves.
pub proof fn lemma_unrelated_edges_stay(edges: Seq<EdgeView>, id: Seq<char>)
    requires
        forall|i: int| 0 <= i < edges.len() ==> !touches(#[trigger] edges[i], id),
    ensures
        edges_without(edges, id) == edges,
    decreases edges.len(),
{
    reveal(Seq::filter);
    if edges.len() > 0 {
        lemma_unrelated_edges_stay(edges.drop_last(), id);
        assert(edges == edges.drop_last().push(edges.last()));
    }
}

/// After the deletion of a note no edge starts or ends at it, and the edges
/// that remain are edges that were there.
pub proof fn lemma_pruned_edges(edges: Seq<EdgeView>, id: Seq<char>)
    ensures
        forall|i: int|
            0 <= i < edges_without(edges, id).len() ==> !touches(
                #[trigger] edges_without(edges, id)[i],
                id,
            ) && edges.contains(edges_without(edges, id)[i]),
        forall|i: int|
            0 <= i < edges.len() && !touches(edges[i], id) ==> edges_without(edges, id).contains(
                #[trigger] edges[i],
            ),
{
    broadcast use vstd::seq_lib::group_filter_ensures;

    let pred = |e: EdgeView| !touches(e, id);
    assert forall|i: int| 0 <= i < edges.filter(pred).len() implies !touches(
        #[trigger] edges.filter(pred)[i],
        id,
    ) && edges.contains(edges.filter(pred)[i]) by {
        edges.lemma_filter_pred(pred, i);
        edges.lemma_filter_contains_rev(pred, edges.filter(pred)[i]);
    }
    assert forall|i: int| 0 <= i < edges.len() && !touches(edges[i], id) implies edges.filter(
        pred,
    ).contains(#[trigger] edges[i]) by {
        edges.lemma_filter_contains(pred, i);
    }
}

/// Deleting a note a second time changes nothing: the edges that the first
/// deletion left all stay, and the nodes hold nothing under the id any more.
pub proof fn lemma_delete_twice(
    edges: Seq<EdgeView>,
    nodes: Value,
    id: Seq<char>,
    once: Value,
    twice: Value,
)
    requires
        nodes_without(nodes, id, once),
        nodes_without(once, id, twice),
    ensures
        edges_without(edges_without(edges, id), id) == edges_without(edges, id),
        twice == once,
{
    lemma_pruned_edges(edges, id);
    lemma_unrelated_edges_stay(edges_without(edges, id), id);
}

/// Deleting a note that the graph does not know changes nothing: where no edge
/// starts or ends at the note and the nodes hold nothing under its id, all
/// edges stay and the nodes stay as they are.
pub proof fn lemma_delete_unknown_note(
    edges: Seq<EdgeView>,
    nodes: Value,
    id: Seq<char>,
    after: Value,
)
    requires
        forall|i: int| 0 <= i < edges.len() ==> !touches(#[trigger] edges[i], id),
        crate::json::member(nodes, id) is None,
        nodes_without(nodes, id, after),
    ensures
        edges_without(edges, id) == edges,
        after == nodes,
{
    lemma_unrelated_edges_stay(edges, id);
}

} // verus!
