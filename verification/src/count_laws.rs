//! The count of way references to a node, and why the mutations of the store
//! keep the counts it holds equal to it.

use crate::osm_store::{
    counts_lowered, counts_raised, landed, lemma_landed, occurrences, positions_of, saturated,
    with_node_at, without_node, StoreView, WayView,
};
use vstd::prelude::*;

verus! {

/// How often the ways of a store refer to the node `n`, every position of
/// every way counted.
pub open spec fn total_refs(ways: Map<i64, WayView>, n: i64) -> nat
    decreases ways.dom().len(),
    when ways.dom().finite()
{
    if ways.dom().len() == 0 {
        0
    } else {
        let k = ways.dom().choose();
        occurrences(ways[k].node_refs, n) + total_refs(ways.remove(k), n)
    }
}

/// Whether the store holds, for every node, the number of references to it.
pub open spec fn counts_exact(store: StoreView) -> bool {
    forall|n: i64| #[trigger] store.ref_counts[n] == total_refs(store.ways, n)
}

/// The references of any one way can be counted first.
pub proof fn lemma_total_refs_split(ways: Map<i64, WayView>, k: i64, n: i64)
    requires
        ways.dom().finite(),
        ways.contains_key(k),
    ensures
        total_refs(ways, n) == occurrences(ways[k].node_refs, n) + total_refs(ways.remove(k), n),
    decreases ways.dom().len(),
{
    let c = ways.dom().choose();
    if c != k {
        let rest = ways.remove(c);
        lemma_total_refs_split(rest, k, n);
        let other = ways.remove(k);
        lemma_total_refs_split(other, c, n);
        assert(rest.remove(k) =~= other.remove(c));
    }
}

/// A way under a fresh identifier adds its references.
pub proof fn lemma_total_refs_insert(ways: Map<i64, WayView>, way: WayView, k: i64, n: i64)
    requires
        ways.dom().finite(),
        !ways.contains_key(k),
    ensures
        total_refs(ways.insert(k, way), n) == total_refs(ways, n) + occurrences(way.node_refs, n),
{
    lemma_total_refs_split(ways.insert(k, way), k, n);
    assert(ways.insert(k, way).remove(k) =~= ways);
}

/// A way that replaces another one exchanges their references.
pub proof fn lemma_total_refs_replace(ways: Map<i64, WayView>, way: WayView, k: i64, n: i64)
    requires
        ways.dom().finite(),
        ways.contains_key(k),
    ensures
        total_refs(ways.insert(k, way), n) + occurrences(ways[k].node_refs, n) == total_refs(
            ways,
            n,
        ) + occurrences(way.node_refs, n),
{
    lemma_total_refs_split(ways.insert(k, way), k, n);
    lemma_total_refs_split(ways, k, n);
    assert(ways.insert(k, way).remove(k) =~= ways.remove(k));
}

/// A list without `n` holds no `n`, and every other node as often as before.
pub proof fn lemma_occurrences_without(refs: Seq<i64>, n: i64, m: i64)
    ensures
        occurrences(without_node(refs, n), m) == (if m == n {
            0nat
        } else {
            occurrences(refs, m)
        }),
        positions_of(refs, n).len() == occurrences(refs, n),
    decreases refs.len(),
{
    if refs.len() > 0 {
        lemma_occurrences_without(refs.drop_last(), n, m);
        if refs.last() != n {
            assert(without_node(refs.drop_last(), n).push(refs.last()).drop_last()
                =~= without_node(refs.drop_last(), n));
        }
    }
}

/// After `n` was put in, the list holds `n` once more for each insertion
/// made, and every other node as often as before.
pub proof fn lemma_occurrences_with(refs: Seq<i64>, n: i64, positions: Seq<usize>, m: i64)
    ensures
        occurrences(with_node_at(refs, n, positions), m) == occurrences(refs, m) + (if m == n {
            landed(refs.len(), positions)
        } else {
            0nat
        }),
    decreases positions.len(),
{
    if positions.len() > 0 {
        let rest = positions.drop_last();
        lemma_occurrences_with(refs, n, rest, m);
        lemma_landed(refs, n, rest);
        let sofar = with_node_at(refs, n, rest);
        if positions.last() <= sofar.len() {
            lemma_occurrences_insert(sofar, positions.last() as int, n, m);
        }
    }
}

/// An insertion adds one occurrence of what is inserted.
pub proof fn lemma_occurrences_insert(refs: Seq<i64>, at: int, n: i64, m: i64)
    requires
        0 <= at <= refs.len(),
    ensures
        occurrences(refs.insert(at, n), m) == occurrences(refs, m) + (if m == n {
            1nat
        } else {
            0nat
        }),
    decreases refs.len(),
{
    let longer = refs.insert(at, n);
    if at == refs.len() {
        assert(longer.drop_last() =~= refs);
    } else {
        assert(longer.drop_last() =~= refs.drop_last().insert(at, n));
        lemma_occurrences_insert(refs.drop_last(), at, n, m);
    }
}

/// Whether the way can be added without a count passing 65535.
pub open spec fn room_for(store: StoreView, refs: Seq<i64>) -> bool {
    forall|n: i64| #[trigger] total_refs(store.ways, n) + occurrences(refs, n) <= 65535
}

/// A way added under a fresh identifier keeps the counts exact, as long as
/// no count passes 65535.
pub proof fn lemma_add_way_keeps_counts(before: StoreView, after: StoreView, way: WayView)
    requires
        before.keyed(),
        counts_exact(before),
        !before.ways.contains_key(way.id),
        room_for(before, way.node_refs),
        after.ways == before.ways.insert(way.id, way),
        after.ref_counts == counts_raised(before.ref_counts, way.node_refs),
    ensures
        counts_exact(after),
{
    assert forall|n: i64| #[trigger] after.ref_counts[n] == total_refs(after.ways, n) by {
        lemma_total_refs_insert(before.ways, way, way.id, n);
    }
}

/// The removal of a way keeps the counts exact.
pub proof fn lemma_remove_way_keeps_counts(before: StoreView, after: StoreView, way_id: i64)
    requires
        before.keyed(),
        counts_exact(before),
        before.ways.contains_key(way_id),
        after.ways == before.ways.remove(way_id),
        after.ref_counts == counts_lowered(before.ref_counts, before.ways[way_id].node_refs),
    ensures
        counts_exact(after),
{
    assert forall|n: i64| #[trigger] after.ref_counts[n] == total_refs(after.ways, n) by {
        lemma_total_refs_split(before.ways, way_id, n);
    }
}

/// Taking a node out of a way keeps the counts exact.
pub proof fn lemma_strip_keeps_counts(
    before: StoreView,
    after: StoreView,
    way_id: i64,
    node_id: i64,
)
    requires
        before.keyed(),
        counts_exact(before),
        before.ways.contains_key(way_id),
        after.ways == before.ways.insert(
            way_id,
            WayView {
                node_refs: without_node(before.ways[way_id].node_refs, node_id),
                ..before.ways[way_id]
            },
        ),
        after.ref_counts == before.ref_counts.insert(
            node_id,
            saturated(
                before.ref_counts[node_id] - positions_of(
                    before.ways[way_id].node_refs,
                    node_id,
                ).len(),
            ),
        ),
    ensures
        counts_exact(after),
{
    let way = before.ways[way_id];
    let stripped = WayView { node_refs: without_node(way.node_refs, node_id), ..way };
    assert forall|n: i64| #[trigger] after.ref_counts[n] == total_refs(after.ways, n) by {
        lemma_total_refs_replace(before.ways, stripped, way_id, n);
        lemma_total_refs_split(before.ways, way_id, n);
        lemma_occurrences_without(way.node_refs, node_id, n);
    }
}

/// Putting a node back into a way keeps the counts exact, where the count
/// of the node does not pass 65535.
pub proof fn lemma_restore_keeps_counts(
    before: StoreView,
    after: StoreView,
    way_id: i64,
    node_id: i64,
    positions: Seq<usize>,
)
    requires
        before.keyed(),
        counts_exact(before),
        before.ways.contains_key(way_id) ==> total_refs(before.ways, node_id) + landed(
            before.ways[way_id].node_refs.len(),
            positions,
        ) <= 65535,
        after.ways == before.restored(way_id, node_id, positions).ways,
        after.ref_counts == before.restored(way_id, node_id, positions).ref_counts,
    ensures
        counts_exact(after),
{
    if positions.len() > 0 && before.ways.contains_key(way_id) {
        let way = before.ways[way_id];
        let restored = WayView {
            node_refs: with_node_at(way.node_refs, node_id, positions),
            ..way
        };
        assert forall|n: i64| #[trigger] after.ref_counts[n] == total_refs(after.ways, n) by {
            lemma_total_refs_replace(before.ways, restored, way_id, n);
            lemma_occurrences_with(way.node_refs, node_id, positions, n);
        }
    } else {
        assert(after.ref_counts =~= before.ref_counts);
    }
}

} // verus!
