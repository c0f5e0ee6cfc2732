//! Why the mutations of the store keep its indices in step with its maps.

use crate::osm_store::{
    extent_of, lemma_extent_shape, reindexed, reindexed_around, NodeView, StoreView, WayView,
};
use crate::spatial_index::{without_id, SpatialEntry};
use vstd::prelude::*;

verus! {

/// The bounding box of a way depends only on the nodes that it refers to.
pub proof fn lemma_extent_local(
    a: Map<i64, NodeView>,
    b: Map<i64, NodeView>,
    id: i64,
    refs: Seq<i64>,
)
    requires
        forall|i: int|
            0 <= i < refs.len() ==> (a.contains_key(#[trigger] refs[i]) == b.contains_key(refs[i])),
        forall|i: int|
            0 <= i < refs.len() && a.contains_key(#[trigger] refs[i]) ==> a[refs[i]].lon
                == b[refs[i]].lon && a[refs[i]].lat == b[refs[i]].lat,
    ensures
        extent_of(a, id, refs) == extent_of(b, id, refs),
    decreases refs.len(),
{
    if refs.len() > 0 {
        let rest = refs.drop_last();
        lemma_extent_local(a, b, id, rest);
    }
}

/// A change to one node leaves the bounding box of a way that does not refer to it.
pub proof fn lemma_extent_unreferenced(
    a: Map<i64, NodeView>,
    b: Map<i64, NodeView>,
    node_id: i64,
    id: i64,
    refs: Seq<i64>,
)
    requires
        !refs.contains(node_id),
        forall|k: i64| k != node_id ==> (#[trigger] a.contains_key(k) == b.contains_key(k)),
        forall|k: i64| k != node_id && #[trigger] a.contains_key(k) ==> a[k] == b[k],
    ensures
        extent_of(a, id, refs) == extent_of(b, id, refs),
{
    lemma_extent_local(a, b, id, refs);
}

/// Removing a node keeps the node index exact; and it keeps the way index
/// exact where no way refers to the node.
pub proof fn lemma_remove_node_keeps_indices(before: StoreView, after: StoreView, node_id: i64)
    requires
        before.nodes.contains_key(node_id),
        after == (StoreView {
            nodes: before.nodes.remove(node_id),
            node_index: before.node_index.remove(
                SpatialEntry::point(node_id, before.nodes[node_id].lon, before.nodes[node_id].lat),
            ),
            ..before
        }),
    ensures
        before.node_index_exact() ==> after.node_index_exact(),
        before.way_index_exact() && !before.is_referenced(node_id) ==> after.way_index_exact(),
{
    broadcast use vstd::multiset::group_multiset_axioms;

    assert(before.node_index_exact() ==> after.node_index_exact());
    if before.way_index_exact() && !before.is_referenced(node_id) {
        assert forall|e: SpatialEntry| #![trigger after.way_index.count(e)]
            after.way_index.count(e) == (if after.ways.contains_key(e.id) && extent_of(
                after.nodes,
                e.id,
                after.ways[e.id].node_refs,
            ) == Some(e) {
                1nat
            } else {
                0nat
            }) by {
            if before.ways.contains_key(e.id) {
                lemma_extent_unreferenced(
                    before.nodes,
                    after.nodes,
                    node_id,
                    e.id,
                    before.ways[e.id].node_refs,
                );
            }
        }
    }
}

/// Adding a node, or replacing one, keeps the node index exact; and it
/// keeps the way index exact where no way refers to the node.
pub proof fn lemma_add_node_keeps_indices(before: StoreView, after: StoreView, node: NodeView)
    requires
        after == before.with_node(node),
    ensures
        before.node_index_exact() ==> after.node_index_exact(),
        before.way_index_exact() && !before.is_referenced(node.id) ==> after.way_index_exact(),
{
    broadcast use vstd::multiset::group_multiset_axioms;

    let cleared = before.without_node(node.id);
    if before.nodes.contains_key(node.id) {
        lemma_remove_node_keeps_indices(before, cleared, node.id);
    }
    assert(cleared.node_index_exact() ==> after.node_index_exact());
    if before.way_index_exact() && !before.is_referenced(node.id) {
        assert forall|e: SpatialEntry| #![trigger after.way_index.count(e)]
            after.way_index.count(e) == (if after.ways.contains_key(e.id) && extent_of(
                after.nodes,
                e.id,
                after.ways[e.id].node_refs,
            ) == Some(e) {
                1nat
            } else {
                0nat
            }) by {
            if before.ways.contains_key(e.id) {
                lemma_extent_unreferenced(
                    before.nodes,
                    after.nodes,
                    node.id,
                    e.id,
                    before.ways[e.id].node_refs,
                );
            }
        }
    }
}

/// Bringing the entry of one way up to date keeps the way index exact, when
/// the maps changed at that way alone.
pub proof fn lemma_reindex_keeps_way_index(
    before: StoreView,
    ways: Map<i64, WayView>,
    way_id: i64,
    after: StoreView,
)
    requires
        before.way_index_exact(),
        forall|k: i64| k != way_id ==> (#[trigger] ways.contains_key(k) == before.ways.contains_key(k)),
        forall|k: i64| k != way_id && #[trigger] ways.contains_key(k) ==> ways[k] == before.ways[k],
        after.nodes == before.nodes,
        after.ways == ways,
        after.way_index == reindexed(before.way_index, before.nodes, ways, way_id),
    ensures
        after.way_index_exact(),
{
    broadcast use vstd::multiset::group_multiset_axioms;

    if ways.contains_key(way_id) {
        lemma_extent_shape(before.nodes, way_id, ways[way_id].node_refs);
    }
    assert forall|e: SpatialEntry| #![trigger after.way_index.count(e)]
        after.way_index.count(e) == (if after.ways.contains_key(e.id) && extent_of(
            after.nodes,
            e.id,
            after.ways[e.id].node_refs,
        ) == Some(e) {
            1nat
        } else {
            0nat
        }) by {
        assert(without_id(before.way_index, way_id).count(e) == (if e.id != way_id {
            before.way_index.count(e)
        } else {
            0nat
        }));
    }
}

/// Adding a way under a fresh identifier keeps the way index exact.
pub proof fn lemma_add_way_keeps_way_index(before: StoreView, after: StoreView, way: WayView)
    requires
        before.way_index_exact(),
        !before.ways.contains_key(way.id),
        after.nodes == before.nodes,
        after.ways == before.ways.insert(way.id, way),
        after.way_index == (match extent_of(before.nodes, way.id, way.node_refs) {
            Some(e) => before.way_index.insert(e),
            None => before.way_index,
        }),
    ensures
        after.way_index_exact(),
{
    broadcast use vstd::multiset::group_multiset_axioms;

    lemma_extent_shape(before.nodes, way.id, way.node_refs);
}

/// Removing a way keeps the way index exact.
pub proof fn lemma_remove_way_keeps_way_index(before: StoreView, after: StoreView, way_id: i64)
    requires
        before.way_index_exact(),
        after.nodes == before.nodes,
        after.ways == before.ways.remove(way_id),
        after.way_index == without_id(before.way_index, way_id),
    ensures
        after.way_index_exact(),
{
    broadcast use vstd::multiset::group_multiset_axioms;

}

/// Moving a node keeps both indices exact.
pub proof fn lemma_move_keeps_indices(
    before: StoreView,
    after: StoreView,
    node_id: i64,
    lon: i32,
    lat: i32,
)
    requires
        before.nodes.contains_key(node_id),
        before.nodes[node_id].id == node_id,
        after.nodes == before.nodes.insert(
            node_id,
            NodeView { lon: lon, lat: lat, ..before.nodes[node_id] },
        ),
        after.ways == before.ways,
        after.node_index == before.node_index.remove(
            SpatialEntry::point(node_id, before.nodes[node_id].lon, before.nodes[node_id].lat),
        ).insert(SpatialEntry::point(node_id, lon, lat)),
        reindexed_around(before.way_index, after.way_index, after.nodes, before.ways, node_id),
    ensures
        before.node_index_exact() ==> after.node_index_exact(),
        before.way_index_exact() ==> after.way_index_exact(),
{
    broadcast use vstd::multiset::group_multiset_axioms;

    assert(before.node_index_exact() ==> after.node_index_exact());
    if before.way_index_exact() {
        assert forall|e: SpatialEntry| #![trigger after.way_index.count(e)]
            after.way_index.count(e) == (if after.ways.contains_key(e.id) && extent_of(
                after.nodes,
                e.id,
                after.ways[e.id].node_refs,
            ) == Some(e) {
                1nat
            } else {
                0nat
            }) by {
            if before.ways.contains_key(e.id) && !before.ways[e.id].node_refs.contains(node_id) {
                lemma_extent_unreferenced(
                    before.nodes,
                    after.nodes,
                    node_id,
                    e.id,
                    before.ways[e.id].node_refs,
                );
            }
        }
    }
}

} // verus!
