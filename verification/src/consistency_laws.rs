//! Why the edits keep a consistent store consistent: both indices exact and
//! the counts equal to the references.

use crate::count_laws::{
    counts_exact, lemma_occurrences_without, lemma_remove_way_keeps_counts,
    lemma_strip_keeps_counts, lemma_total_refs_replace, total_refs,
};
use crate::delete_laws::{lemma_names_step, names};
use crate::history::{drop_ways, strip_all};
use crate::index_laws::{
    lemma_add_node_keeps_indices, lemma_extent_local, lemma_move_keeps_indices,
    lemma_reindex_keeps_way_index, lemma_remove_node_keeps_indices,
    lemma_remove_way_keeps_way_index,
};
use crate::osm_store::{
    extent_of, lemma_occurrences_contains, positions_of, without_node, NodeView, StoreView,
    WayView,
};
use crate::spatial_index::SpatialEntry;
use vstd::prelude::*;

verus! {

/// Whether a store is consistent: every entity under its own identifier,
/// one index entry for each node, one for each way with a referenced node
/// present, and for every node the count of the references to it.
pub open spec fn consistent(store: StoreView) -> bool {
    &&& store.keyed()
    &&& store.node_index_exact()
    &&& store.way_index_exact()
    &&& counts_exact(store)
}

/// New tags for a way keep the store consistent.
pub proof fn lemma_retag_way_keeps(before: StoreView, after: StoreView, way: WayView)
    requires
        consistent(before),
        before.ways.contains_key(way.id),
        way.node_refs == before.ways[way.id].node_refs,
        after == (StoreView { ways: before.ways.insert(way.id, way), ..before }),
    ensures
        consistent(after),
{
    assert forall|n: i64| #[trigger] after.ref_counts[n] == total_refs(after.ways, n) by {
        lemma_total_refs_replace(before.ways, way, way.id, n);
    }
}

/// New tags for a node keep the store consistent.
pub proof fn lemma_retag_node_keeps(before: StoreView, after: StoreView, node: NodeView)
    requires
        consistent(before),
        before.nodes.contains_key(node.id),
        node.lon == before.nodes[node.id].lon,
        node.lat == before.nodes[node.id].lat,
        after == (StoreView { nodes: before.nodes.insert(node.id, node), ..before }),
    ensures
        consistent(after),
{
    assert forall|e: SpatialEntry| #![trigger after.way_index.count(e)]
        after.way_index.count(e) == (if after.ways.contains_key(e.id) && extent_of(
            after.nodes,
            e.id,
            after.ways[e.id].node_refs,
        ) == Some(e) {
            1nat
        } else {
            0nat
        }) by {
        if before.ways.contains_key(e.id) {
            lemma_extent_local(before.nodes, after.nodes, e.id, before.ways[e.id].node_refs);
        }
    }
}

/// The move of a node keeps the store consistent.
pub proof fn lemma_move_keeps(before: StoreView, after: StoreView, node_id: i64, lon: i32, lat: i32)
    requires
        consistent(before),
        before.moved(after, node_id, lon, lat),
    ensures
        consistent(after),
{
    if before.nodes.contains_key(node_id) {
        lemma_move_keeps_indices(before, after, node_id, lon, lat);
    }
}

/// A node added under an identifier that no way refers to keeps the store
/// consistent.
pub proof fn lemma_add_node_keeps(before: StoreView, node: NodeView)
    requires
        consistent(before),
        !before.is_referenced(node.id),
    ensures
        consistent(before.with_node(node)),
{
    let after = before.with_node(node);
    lemma_add_node_keeps_indices(before, after, node);
}

/// The removal of a node that no way refers to keeps the store consistent.
pub proof fn lemma_remove_node_keeps(before: StoreView, node_id: i64)
    requires
        consistent(before),
        !before.is_referenced(node_id),
    ensures
        consistent(before.without_node(node_id)),
{
    let after = before.without_node(node_id);
    if before.nodes.contains_key(node_id) {
        lemma_remove_node_keeps_indices(before, after, node_id);
    }
}

/// The removal of a way keeps the store consistent.
pub proof fn lemma_remove_way_keeps(before: StoreView, way_id: i64)
    requires
        consistent(before),
    ensures
        consistent(before.without_way(way_id)),
{
    let after = before.without_way(way_id);
    if before.ways.contains_key(way_id) {
        lemma_remove_way_keeps_way_index(before, after, way_id);
        lemma_remove_way_keeps_counts(before, after, way_id);
    }
}

/// A list without a node is no longer than the list, and does not hold the node.
pub proof fn lemma_without_shorter(refs: Seq<i64>, n: i64)
    ensures
        without_node(refs, n).len() <= refs.len(),
        !without_node(refs, n).contains(n),
    decreases refs.len(),
{
    lemma_occurrences_without(refs, n, n);
    lemma_occurrences_contains(without_node(refs, n), n);
    if refs.len() > 0 {
        lemma_without_shorter(refs.drop_last(), n);
    }
}

/// Taking a node out of a way keeps the store consistent.
pub proof fn lemma_strip_keeps(before: StoreView, way_id: i64, node_id: i64)
    requires
        consistent(before),
    ensures
        consistent(before.stripped(way_id, node_id)),
{
    let after = before.stripped(way_id, node_id);
    if before.ways.contains_key(way_id) && positions_of(before.ways[way_id].node_refs, node_id).len()
        > 0 {
        lemma_without_shorter(before.ways[way_id].node_refs, node_id);
        assert(after.ref_counts.dom() =~= Set::<i64>::full());
        lemma_reindex_keeps_way_index(before, after.ways, way_id, after);
        lemma_strip_keeps_counts(before, after, way_id, node_id);
    }
}

/// Taking a node out of the ways of a list keeps the store consistent; the
/// ways that the list names no longer hold the node, and the other ways
/// are as they were.
pub proof fn lemma_strip_all_keeps(
    before: StoreView,
    node_id: i64,
    references: Seq<(i64, Seq<usize>)>,
)
    requires
        consistent(before),
    ensures
        consistent(strip_all(before, node_id, references)),
        strip_all(before, node_id, references).nodes == before.nodes,
        strip_all(before, node_id, references).ways.dom() == before.ways.dom(),
        forall|w: i64|
            #![trigger strip_all(before, node_id, references).ways[w]]
            before.ways.contains_key(w) ==> (if names(references, w) {
                !strip_all(before, node_id, references).ways[w].node_refs.contains(node_id)
            } else {
                strip_all(before, node_id, references).ways[w] == before.ways[w]
            }),
    decreases references.len(),
{
    if references.len() > 0 {
        let shorter = references.drop_last();
        let w = references.last().0;
        lemma_strip_all_keeps(before, node_id, shorter);
        let sofar = strip_all(before, node_id, shorter);
        lemma_strip_keeps(sofar, w, node_id);
        let after = strip_all(before, node_id, references);
        assert forall|x: i64|
            #![trigger after.ways[x]]
            before.ways.contains_key(x) implies (if names(references, x) {
            !after.ways[x].node_refs.contains(node_id)
        } else {
            after.ways[x] == before.ways[x]
        }) by {
            lemma_names_step(references, x);
            if x == w {
                lemma_without_shorter(sofar.ways[w].node_refs, node_id);
                lemma_occurrences_without(sofar.ways[w].node_refs, node_id, node_id);
                lemma_occurrences_contains(sofar.ways[w].node_refs, node_id);
            }
        }
    }
}

/// The removal of the ways of a list keeps the store consistent and adds no way.
pub proof fn lemma_drop_ways_keeps(before: StoreView, list: Seq<WayView>)
    requires
        consistent(before),
    ensures
        consistent(drop_ways(before, list)),
        drop_ways(before, list).nodes == before.nodes,
        forall|w: i64|
            #![trigger drop_ways(before, list).ways[w]]
            drop_ways(before, list).ways.contains_key(w) ==> before.ways.contains_key(w)
                && drop_ways(before, list).ways[w] == before.ways[w],
    decreases list.len(),
{
    if list.len() > 0 {
        lemma_drop_ways_keeps(before, list.drop_last());
        lemma_remove_way_keeps(drop_ways(before, list.drop_last()), list.last().id);
    }
}

/// The deletion of a node keeps the store consistent, where the references
/// name every way that refers to the node.
pub proof fn lemma_delete_node_keeps(
    before: StoreView,
    node_id: i64,
    references: Seq<(i64, Seq<usize>)>,
    cascaded: Seq<WayView>,
)
    requires
        consistent(before),
        forall|w: i64|
            #![trigger before.ways[w]]
            before.ways.contains_key(w) && before.ways[w].node_refs.contains(node_id) ==> names(
                references,
                w,
            ),
    ensures
        consistent(
            drop_ways(strip_all(before, node_id, references), cascaded).without_node(node_id),
        ),
{
    let stripped = strip_all(before, node_id, references);
    lemma_strip_all_keeps(before, node_id, references);
    let dropped = drop_ways(stripped, cascaded);
    lemma_drop_ways_keeps(stripped, cascaded);
    lemma_remove_node_keeps(dropped, node_id);
}

} // verus!
