//! Why the deletion of a node can be taken back.

use crate::count_laws::{
    counts_exact, lemma_occurrences_without, lemma_total_refs_split, total_refs,
};
use crate::history::{cascade_of, drop_ways, put_ways, restore_all, strip_all};
use crate::osm_store::{
    extent_of, landed, lemma_extent_shape, lemma_landed, occurrences, positions_of, saturated,
    with_node_at, without_node, NodeView, StoreView, WayView,
};
use crate::spatial_index::SpatialEntry;
use vstd::prelude::*;

verus! {

/// Whether the list names the way.
pub open spec fn names(references: Seq<(i64, Seq<usize>)>, way_id: i64) -> bool {
    exists|k: int| 0 <= k < references.len() && (#[trigger] references[k]).0 == way_id
}

/// Whether the list holds a way with this identifier.
pub open spec fn holds_way(ways: Seq<WayView>, way_id: i64) -> bool {
    exists|k: int| 0 <= k < ways.len() && (#[trigger] ways[k]).id == way_id
}

/// A way without a node.
pub open spec fn stripped_way(way: WayView, node_id: i64) -> WayView {
    WayView { node_refs: without_node(way.node_refs, node_id), ..way }
}

/// Whether the list names ways of `ways` that hold the node, each once,
/// each with the positions at which it holds the node.
pub open spec fn names_once(
    ways: Map<i64, WayView>,
    node_id: i64,
    references: Seq<(i64, Seq<usize>)>,
) -> bool {
    &&& forall|i: int, j: int|
        0 <= i < j < references.len() ==> (#[trigger] references[i]).0 != (
        #[trigger] references[j]).0
    &&& forall|k: int|
        0 <= k < references.len() ==> ways.contains_key((#[trigger] references[k]).0)
            && references[k].1 == positions_of(ways[references[k].0].node_refs, node_id)
            && references[k].1.len() > 0
}

/// How many positions the list records, those of all its ways together.
pub open spec fn recorded(references: Seq<(i64, Seq<usize>)>) -> nat
    decreases references.len(),
{
    if references.len() == 0 {
        0
    } else {
        recorded(references.drop_last()) + references.last().1.len()
    }
}

/// A shorter list names what the list names, but for its last way.
pub proof fn lemma_names_step(references: Seq<(i64, Seq<usize>)>, way_id: i64)
    requires
        references.len() > 0,
    ensures
        names(references, way_id) <==> (names(references.drop_last(), way_id)
            || references.last().0 == way_id),
{
    let shorter = references.drop_last();
    if names(references, way_id) {
        let k = choose|k: int| 0 <= k < references.len() && (#[trigger] references[k]).0 == way_id;
        if k < shorter.len() {
            assert(shorter[k].0 == way_id);
        }
    }
}

/// A shorter list names ways once where the list does, and does not name
/// the last way.
pub proof fn lemma_names_step_once(
    ways: Map<i64, WayView>,
    node_id: i64,
    references: Seq<(i64, Seq<usize>)>,
)
    requires
        names_once(ways, node_id, references),
        references.len() > 0,
    ensures
        names_once(ways, node_id, references.drop_last()),
        !names(references.drop_last(), references.last().0),
        ways.contains_key(references.last().0),
        references.last().1 == positions_of(ways[references.last().0].node_refs, node_id),
        references.last().1.len() > 0,
{
}

/// What the store is like after the node was taken out of the ways of a list.
pub proof fn lemma_strip_all(state: StoreView, node_id: i64, references: Seq<(i64, Seq<usize>)>)
    requires
        state.ref_counts.dom() == Set::<i64>::full(),
        names_once(state.ways, node_id, references),
    ensures
        ({
            let after = strip_all(state, node_id, references);
            &&& after.nodes == state.nodes
            &&& after.relations == state.relations
            &&& after.node_index == state.node_index
            &&& after.index_dirty == state.index_dirty
            &&& after.next_local_id == state.next_local_id
            &&& after.ways.dom() == state.ways.dom()
            &&& forall|w: i64| #[trigger]
                after.ways.contains_key(w) ==> after.ways[w] == (if names(references, w) {
                    stripped_way(state.ways[w], node_id)
                } else {
                    state.ways[w]
                })
            &&& after.ref_counts == state.ref_counts.insert(
                node_id,
                saturated(state.ref_counts[node_id] - recorded(references)),
            )
            &&& forall|e: SpatialEntry|
                #![trigger after.way_index.count(e)]
                after.way_index.count(e) == (if names(references, e.id) {
                    if extent_of(
                        state.nodes,
                        e.id,
                        without_node(state.ways[e.id].node_refs, node_id),
                    ) == Some(e) {
                        1nat
                    } else {
                        0nat
                    }
                } else {
                    state.way_index.count(e)
                })
        }),
    decreases references.len(),
{
    broadcast use vstd::multiset::group_multiset_axioms;

    let after = strip_all(state, node_id, references);
    if references.len() > 0 {
        let shorter = references.drop_last();
        let w = references.last().0;
        lemma_names_step_once(state.ways, node_id, references);
        lemma_strip_all(state, node_id, shorter);
        assert forall|x: i64| #[trigger] after.ways.contains_key(x) implies after.ways[x] == (
        if names(references, x) {
            stripped_way(state.ways[x], node_id)
        } else {
            state.ways[x]
        }) by {
            lemma_names_step(references, x);
        }
        lemma_extent_shape(state.nodes, w, without_node(state.ways[w].node_refs, node_id));
        assert forall|e: SpatialEntry|
            #![trigger after.way_index.count(e)]
            after.way_index.count(e) == (if names(references, e.id) {
                if extent_of(
                    state.nodes,
                    e.id,
                    without_node(state.ways[e.id].node_refs, node_id),
                ) == Some(e) {
                    1nat
                } else {
                    0nat
                }
            } else {
                state.way_index.count(e)
            }) by {
            lemma_names_step(references, e.id);
        }
    }
}

/// How often the ways of a list refer to the node `n`.
pub open spec fn cascade_refs(ways: Seq<WayView>, n: i64) -> nat
    decreases ways.len(),
{
    if ways.len() == 0 {
        0
    } else {
        cascade_refs(ways.drop_last(), n) + occurrences(ways.last().node_refs, n)
    }
}

/// Whether the ways of the list stand in `ways`, each under its own
/// identifier and no identifier twice.
pub open spec fn stand_in(ways: Map<i64, WayView>, list: Seq<WayView>) -> bool {
    &&& forall|i: int, j: int|
        0 <= i < j < list.len() ==> (#[trigger] list[i]).id != (#[trigger] list[j]).id
    &&& forall|k: int|
        0 <= k < list.len() ==> ways.contains_key((#[trigger] list[k]).id) && ways[list[k].id]
            == list[k]
}

/// A shorter list holds what the list holds, but for its last way.
pub proof fn lemma_holds_step(list: Seq<WayView>, way_id: i64)
    requires
        list.len() > 0,
    ensures
        holds_way(list, way_id) <==> (holds_way(list.drop_last(), way_id) || list.last().id
            == way_id),
{
    let shorter = list.drop_last();
    if holds_way(list, way_id) {
        let k = choose|k: int| 0 <= k < list.len() && (#[trigger] list[k]).id == way_id;
        if k < shorter.len() {
            assert(shorter[k].id == way_id);
        }
    }
}

/// Whether no identifier occurs twice in the list.
pub open spec fn distinct_ids(list: Seq<WayView>) -> bool {
    forall|i: int, j: int|
        0 <= i < j < list.len() ==> (#[trigger] list[i]).id != (#[trigger] list[j]).id
}

/// A shorter list has distinct identifiers where the list has, and does
/// not hold the last way.
pub proof fn lemma_distinct_step(list: Seq<WayView>)
    requires
        distinct_ids(list),
        list.len() > 0,
    ensures
        distinct_ids(list.drop_last()),
        !holds_way(list.drop_last(), list.last().id),
{
}

/// What the store is like after the ways of a list were removed.
pub proof fn lemma_drop_ways(state: StoreView, list: Seq<WayView>)
    requires
        state.ref_counts.dom() == Set::<i64>::full(),
        stand_in(state.ways, list),
    ensures
        ({
            let after = drop_ways(state, list);
            &&& after.nodes == state.nodes
            &&& after.relations == state.relations
            &&& after.node_index == state.node_index
            &&& after.index_dirty == state.index_dirty
            &&& after.next_local_id == state.next_local_id
            &&& forall|w: i64| #[trigger]
                after.ways.contains_key(w) <==> (state.ways.contains_key(w) && !holds_way(list, w))
            &&& forall|w: i64| #[trigger] after.ways.contains_key(w) ==> after.ways[w] == state.ways[w]
            &&& after.ref_counts == Map::total(
                |n: i64| saturated(state.ref_counts[n] - cascade_refs(list, n)),
            )
            &&& forall|e: SpatialEntry|
                #![trigger after.way_index.count(e)]
                after.way_index.count(e) == (if holds_way(list, e.id) {
                    0nat
                } else {
                    state.way_index.count(e)
                })
        }),
    decreases list.len(),
{
    broadcast use vstd::multiset::group_multiset_axioms;

    let after = drop_ways(state, list);
    if list.len() > 0 {
        let shorter = list.drop_last();
        lemma_distinct_step(list);
        lemma_drop_ways(state, shorter);
        assert forall|w: i64| #[trigger]
            after.ways.contains_key(w) <==> (state.ways.contains_key(w) && !holds_way(list, w)) by {
            lemma_holds_step(list, w);
        }
        assert forall|e: SpatialEntry|
            #![trigger after.way_index.count(e)]
            after.way_index.count(e) == (if holds_way(list, e.id) {
                0nat
            } else {
                state.way_index.count(e)
            }) by {
            lemma_holds_step(list, e.id);
        }
    }
}

/// What the store is like after the ways of a list were added, none of
/// which was there.
pub proof fn lemma_put_ways(state: StoreView, list: Seq<WayView>)
    requires
        state.ref_counts.dom() == Set::<i64>::full(),
        distinct_ids(list),
        forall|k: int| 0 <= k < list.len() ==> !state.ways.contains_key((#[trigger] list[k]).id),
    ensures
        ({
            let after = put_ways(state, list);
            &&& after.nodes == state.nodes
            &&& after.relations == state.relations
            &&& after.node_index == state.node_index
            &&& after.index_dirty == state.index_dirty
            &&& after.next_local_id == state.next_local_id
            &&& forall|w: i64| #[trigger]
                after.ways.contains_key(w) <==> (state.ways.contains_key(w) || holds_way(list, w))
            &&& forall|w: i64|
                #[trigger] after.ways.contains_key(w) && !holds_way(list, w) ==> after.ways[w]
                    == state.ways[w]
            &&& forall|k: int| 0 <= k < list.len() ==> after.ways[(#[trigger] list[k]).id] == list[k]
            &&& after.ref_counts == Map::total(
                |n: i64| saturated(state.ref_counts[n] + cascade_refs(list, n)),
            )
            &&& forall|e: SpatialEntry|
                #![trigger after.way_index.count(e)]
                !holds_way(list, e.id) ==> after.way_index.count(e) == state.way_index.count(e)
        }),
    decreases list.len(),
{
    broadcast use vstd::multiset::group_multiset_axioms;

    let after = put_ways(state, list);
    if list.len() > 0 {
        let shorter = list.drop_last();
        let last = list.last();
        lemma_distinct_step(list);
        lemma_put_ways(state, shorter);
        let sofar = put_ways(state, shorter);
        assert forall|w: i64| #[trigger]
            after.ways.contains_key(w) <==> (state.ways.contains_key(w) || holds_way(list, w)) by {
            lemma_holds_step(list, w);
        }
        assert forall|w: i64|
            #[trigger] after.ways.contains_key(w) && !holds_way(list, w) implies after.ways[w]
                == state.ways[w] by {
            lemma_holds_step(list, w);
        }
        assert forall|k: int| 0 <= k < list.len() implies after.ways[(#[trigger] list[k]).id]
            == list[k] by {
            if k < shorter.len() {
                assert(shorter[k] == list[k]);
            }
        }
        lemma_extent_shape(sofar.nodes, last.id, last.node_refs);
        assert forall|e: SpatialEntry|
            #![trigger after.way_index.count(e)]
            !holds_way(list, e.id) implies after.way_index.count(e) == state.way_index.count(e) by {
            lemma_holds_step(list, e.id);
        }
    }
}

/// Putting a node into a list with one more element at its end gives the
/// same as putting it into the list and adding the element then, where
/// every position takes its insertion.
pub proof fn lemma_put_then_push(inner: Seq<i64>, x: i64, n: i64, positions: Seq<usize>)
    requires
        landed(inner.len(), positions) == positions.len(),
    ensures
        with_node_at(inner.push(x), n, positions) == with_node_at(inner, n, positions).push(x),
        landed(inner.len() + 1, positions) == positions.len(),
    decreases positions.len(),
{
    if positions.len() > 0 {
        let rest = positions.drop_last();
        lemma_landed(inner, n, rest);
        lemma_put_then_push(inner, x, n, rest);
        let sofar = with_node_at(inner, n, rest);
        let at = positions.last() as int;
        assert(inner.push(x).len() == inner.len() + 1);
        assert(sofar.push(x).insert(at, n) =~= sofar.insert(at, n).push(x));
    }
}

/// Taking a node out of a list and putting it back at the positions at
/// which it stood gives the list back, every position taking its insertion.
pub proof fn lemma_back(refs: Seq<i64>, n: i64)
    requires
        refs.len() <= usize::MAX,
    ensures
        with_node_at(without_node(refs, n), n, positions_of(refs, n)) == refs,
        landed(without_node(refs, n).len(), positions_of(refs, n)) == positions_of(refs, n).len(),
        without_node(refs, n).len() + positions_of(refs, n).len() == refs.len(),
    decreases refs.len(),
{
    if refs.len() > 0 {
        let shorter = refs.drop_last();
        lemma_back(shorter, n);
        let inner = without_node(shorter, n);
        let rest = positions_of(shorter, n);
        if refs.last() == n {
            assert(positions_of(refs, n).drop_last() =~= rest);
            assert(shorter.insert(shorter.len() as int, n) =~= refs);
        } else {
            lemma_put_then_push(inner, refs.last(), n, rest);
            assert(shorter.push(refs.last()) =~= refs);
        }
    }
}

/// What the store is like after the node was put back into the ways of a
/// list, each of which stands in the store without the node.
pub proof fn lemma_restore_all(
    state: StoreView,
    intact: Map<i64, WayView>,
    node_id: i64,
    references: Seq<(i64, Seq<usize>)>,
)
    requires
        state.ref_counts.dom() == Set::<i64>::full(),
        names_once(intact, node_id, references),
        forall|k: int|
            0 <= k < references.len() ==> intact[(#[trigger] references[k]).0].node_refs.len()
                <= usize::MAX,
        forall|k: int|
            0 <= k < references.len() ==> state.ways.contains_key((#[trigger] references[k]).0)
                && state.ways[references[k].0] == stripped_way(intact[references[k].0], node_id),
    ensures
        ({
            let after = restore_all(state, node_id, references);
            &&& after.nodes == state.nodes
            &&& after.relations == state.relations
            &&& after.node_index == state.node_index
            &&& after.index_dirty == state.index_dirty
            &&& after.next_local_id == state.next_local_id
            &&& after.ways.dom() == state.ways.dom()
            &&& forall|w: i64| #[trigger]
                after.ways.contains_key(w) ==> after.ways[w] == (if names(references, w) {
                    intact[w]
                } else {
                    state.ways[w]
                })
            &&& after.ref_counts == state.ref_counts.insert(
                node_id,
                saturated(state.ref_counts[node_id] + recorded(references)),
            )
            &&& forall|e: SpatialEntry|
                #![trigger after.way_index.count(e)]
                after.way_index.count(e) == (if names(references, e.id) {
                    if extent_of(state.nodes, e.id, intact[e.id].node_refs) == Some(e) {
                        1nat
                    } else {
                        0nat
                    }
                } else {
                    state.way_index.count(e)
                })
        }),
    decreases references.len(),
{
    broadcast use vstd::multiset::group_multiset_axioms;

    let after = restore_all(state, node_id, references);
    if references.len() > 0 {
        let shorter = references.drop_last();
        let w = references.last().0;
        lemma_names_step_once(intact, node_id, references);
        lemma_restore_all(state, intact, node_id, shorter);
        let sofar = restore_all(state, node_id, shorter);
        lemma_back(intact[w].node_refs, node_id);
        let way = sofar.ways[w];
        assert forall|x: i64| #[trigger] after.ways.contains_key(x) implies after.ways[x] == (
        if names(references, x) {
            intact[x]
        } else {
            state.ways[x]
        }) by {
            lemma_names_step(references, x);
        }
        lemma_extent_shape(state.nodes, w, intact[w].node_refs);
        assert forall|e: SpatialEntry|
            #![trigger after.way_index.count(e)]
            after.way_index.count(e) == (if names(references, e.id) {
                if extent_of(state.nodes, e.id, intact[e.id].node_refs) == Some(e) {
                    1nat
                } else {
                    0nat
                }
            } else {
                state.way_index.count(e)
            }) by {
            lemma_names_step(references, e.id);
        }
    }
}

/// The ways that a deletion cascades to are named by the references, no
/// one twice, and each is the way of the store without the node.
pub proof fn lemma_cascade(state: StoreView, node_id: i64, references: Seq<(i64, Seq<usize>)>)
    requires
        state.keyed(),
        names_once(state.ways, node_id, references),
    ensures
        distinct_ids(cascade_of(state, node_id, references)),
        forall|k: int|
            0 <= k < cascade_of(state, node_id, references).len() ==> names(
                references,
                (#[trigger] cascade_of(state, node_id, references)[k]).id,
            ) && cascade_of(state, node_id, references)[k] == stripped_way(
                state.ways[cascade_of(state, node_id, references)[k].id],
                node_id,
            ),
    decreases references.len(),
{
    let cascaded = cascade_of(state, node_id, references);
    if references.len() > 0 {
        let shorter = references.drop_last();
        let w = references.last().0;
        lemma_names_step_once(state.ways, node_id, references);
        lemma_cascade(state, node_id, shorter);
        let rest = cascade_of(state, node_id, shorter);
        assert forall|k: int| 0 <= k < cascaded.len() implies names(
            references,
            (#[trigger] cascaded[k]).id,
        ) && cascaded[k] == stripped_way(state.ways[cascaded[k].id], node_id) by {
            if k < rest.len() {
                lemma_names_step(references, rest[k].id);
            } else {
                lemma_names_step(references, w);
            }
        }
    }
}

/// The ways of a list refer to a node no more often than the ways of the
/// store do, where each way of the list stands for a way of the store that
/// refers to the node at least as often, and none for two.
pub proof fn lemma_cascade_refs_bound(ways: Map<i64, WayView>, list: Seq<WayView>, n: i64)
    requires
        ways.dom().finite(),
        distinct_ids(list),
        forall|k: int|
            0 <= k < list.len() ==> ways.contains_key((#[trigger] list[k]).id) && occurrences(
                list[k].node_refs,
                n,
            ) <= occurrences(ways[list[k].id].node_refs, n),
    ensures
        cascade_refs(list, n) <= total_refs(ways, n),
    decreases list.len(),
{
    if list.len() > 0 {
        let shorter = list.drop_last();
        let last = list.last();
        lemma_distinct_step(list);
        lemma_total_refs_split(ways, last.id, n);
        let rest = ways.remove(last.id);
        lemma_cascade_refs_bound(rest, shorter, n);
    }
}

/// The store counts at least as many references to the node as the list
/// records positions.
pub proof fn lemma_names_bound(
    ways: Map<i64, WayView>,
    node_id: i64,
    references: Seq<(i64, Seq<usize>)>,
)
    requires
        ways.dom().finite(),
        names_once(ways, node_id, references),
    ensures
        recorded(references) <= total_refs(ways, node_id),
    decreases references.len(),
{
    if references.len() > 0 {
        let shorter = references.drop_last();
        let w = references.last().0;
        lemma_names_step_once(ways, node_id, references);
        lemma_total_refs_split(ways, w, node_id);
        lemma_occurrences_without(ways[w].node_refs, node_id, node_id);
        let rest = ways.remove(w);
        lemma_names_bound(rest, node_id, shorter);
    }
}

/// Deleting a node and taking the deletion back gives the state back,
/// where the store was consistent.
pub proof fn lemma_node_back(
    before: StoreView,
    between: StoreView,
    after: StoreView,
    node: NodeView,
    references: Seq<(i64, Seq<usize>)>,
    cascaded: Seq<WayView>,
)
    requires
        before.keyed(),
        before.nodes.contains_key(node.id),
        before.nodes[node.id] == node,
        names_once(before.ways, node.id, references),
        cascaded == cascade_of(before, node.id, references),
        before.node_index_exact(),
        before.way_index_exact(),
        counts_exact(before),
        between == drop_ways(strip_all(before, node.id, references), cascaded).without_node(
            node.id,
        ),
        after == restore_all(
            put_ways(between.with_node(node), cascaded),
            node.id,
            references,
        ),
    ensures
        after == before,
{
    broadcast use vstd::multiset::group_multiset_axioms;

    let id = node.id;
    let stripped = strip_all(before, id, references);
    lemma_strip_all(before, id, references);
    lemma_cascade(before, id, references);
    assert(stripped.ref_counts.dom() =~= Set::<i64>::full());
    lemma_drop_ways(stripped, cascaded);
    let readded = between.with_node(node);
    assert(readded.nodes =~= before.nodes);
    let put = put_ways(readded, cascaded);
    lemma_put_ways(readded, cascaded);
    assert(put.ways =~= stripped.ways) by {
        assert forall|w: i64| put.ways.contains_key(w) <==> stripped.ways.contains_key(w) by {
            if holds_way(cascaded, w) {
                let k = choose|k: int| 0 <= k < cascaded.len() && (#[trigger] cascaded[k]).id == w;
            }
        }
        assert forall|w: i64| put.ways.contains_key(w) implies put.ways[w] == stripped.ways[w] by {
            if holds_way(cascaded, w) {
                let k = choose|k: int| 0 <= k < cascaded.len() && (#[trigger] cascaded[k]).id == w;
            }
        }
    }
    assert(put.ref_counts =~= stripped.ref_counts) by {
        assert forall|n: i64| put.ref_counts[n] == stripped.ref_counts[n] by {
            assert forall|k: int| 0 <= k < cascaded.len() implies before.ways.contains_key(
                (#[trigger] cascaded[k]).id,
            ) && occurrences(cascaded[k].node_refs, n) <= occurrences(
                before.ways[cascaded[k].id].node_refs,
                n,
            ) by {
                lemma_occurrences_without(before.ways[cascaded[k].id].node_refs, id, n);
            }
            lemma_cascade_refs_bound(before.ways, cascaded, n);
            if n == id {
                lemma_cascade_refs_none(before, id, references);
            }
        }
    }
    lemma_restore_all(put, before.ways, id, references);
    lemma_names_bound(before.ways, id, references);
}

/// The ways that a deletion cascades to do not refer to the deleted node.
pub proof fn lemma_cascade_refs_none(
    state: StoreView,
    node_id: i64,
    references: Seq<(i64, Seq<usize>)>,
)
    ensures
        cascade_refs(cascade_of(state, node_id, references), node_id) == 0,
    decreases references.len(),
{
    if references.len() > 0 {
        lemma_cascade_refs_none(state, node_id, references.drop_last());
        let way = state.ways[references.last().0];
        lemma_occurrences_without(way.node_refs, node_id, node_id);
        let rest = cascade_of(state, node_id, references.drop_last());
        if way.node_refs.len() - references.last().1.len() < 2 {
            let added = stripped_way(way, node_id);
            assert(rest.push(added).drop_last() =~= rest);
        }
    }
}

} // verus!
