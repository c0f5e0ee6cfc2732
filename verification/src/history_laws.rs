//! Why undo takes back what apply did, and what follows for the history.

use crate::history::Command;
use crate::osm_store::{lemma_extent_shape, occurrences, StoreView, WayView};
use vstd::prelude::*;

verus! {

/// A move is determined by the state and the new position.
pub proof fn lemma_moved_determined(
    before: StoreView,
    one: StoreView,
    other: StoreView,
    node_id: i64,
    lon: i32,
    lat: i32,
)
    requires
        before.moved(one, node_id, lon, lat),
        before.moved(other, node_id, lon, lat),
    ensures
        one == other,
{
}

/// Moving a node and moving it back to where it was gives the state back,
/// where both indices were exact.
pub proof fn lemma_move_back(
    before: StoreView,
    between: StoreView,
    after: StoreView,
    node_id: i64,
    lon: i32,
    lat: i32,
)
    requires
        before.keyed(),
        before.nodes.contains_key(node_id),
        before.node_index_exact(),
        before.way_index_exact(),
        before.moved(between, node_id, lon, lat),
        between.moved(after, node_id, before.nodes[node_id].lon, before.nodes[node_id].lat),
    ensures
        after == before,
{
    broadcast use vstd::multiset::group_multiset_axioms;

    assert(after.nodes =~= before.nodes);
}

/// Removing a way and adding it again gives the state back, where the way
/// index was exact and the counts cover the references of the way.
pub proof fn lemma_way_back(before: StoreView, between: StoreView, after: StoreView, way: WayView)
    requires
        before.keyed(),
        before.ways.contains_key(way.id),
        before.ways[way.id] == way,
        before.way_index_exact(),
        forall|n: i64| #[trigger] before.ref_counts[n] >= occurrences(way.node_refs, n),
        between == before.without_way(way.id),
        after == between.with_way(way),
    ensures
        after == before,
{
    broadcast use vstd::multiset::group_multiset_axioms;

    lemma_extent_shape(before.nodes, way.id, way.node_refs);
}

/// After any sequence of commands, each made for the state it was applied
/// to, as many undos give every state back, the first one at the end.
/// `forward` holds the states from the first to the one after the last
/// command, `backward` the states that the undos leave, the one after the
/// last command first.
pub proof fn lemma_undo_all_restores<C: Command>(
    commands: Seq<C>,
    forward: Seq<StoreView>,
    backward: Seq<StoreView>,
)
    requires
        forward.len() == commands.len() + 1,
        backward.len() == commands.len() + 1,
        forall|i: int| 0 <= i < forward.len() ==> (#[trigger] forward[i]).keyed(),
        forall|i: int|
            0 <= i < commands.len() ==> (#[trigger] commands[i]).fits(forward[i])
                && commands[i].apply_succeeds(forward[i]) && commands[i].applied(
                forward[i],
                forward[i + 1],
            ),
        backward[commands.len() as int] == forward[commands.len() as int],
        forall|i: int|
            0 <= i < commands.len() ==> (#[trigger] commands[i]).undone(
                backward[i + 1],
                backward[i],
            ),
    ensures
        backward[0] == forward[0],
        forall|i: int| 0 <= i < forward.len() ==> #[trigger] backward[i] == forward[i],
        forall|i: int|
            0 <= i < commands.len() ==> (#[trigger] commands[i]).undo_succeeds(backward[i + 1]),
{
    lemma_undo_down_to(commands, forward, backward, 0);
}

proof fn lemma_undo_down_to<C: Command>(
    commands: Seq<C>,
    forward: Seq<StoreView>,
    backward: Seq<StoreView>,
    from: int,
)
    requires
        0 <= from <= commands.len(),
        forward.len() == commands.len() + 1,
        backward.len() == commands.len() + 1,
        forall|i: int| 0 <= i < forward.len() ==> (#[trigger] forward[i]).keyed(),
        forall|i: int|
            0 <= i < commands.len() ==> (#[trigger] commands[i]).fits(forward[i])
                && commands[i].apply_succeeds(forward[i]) && commands[i].applied(
                forward[i],
                forward[i + 1],
            ),
        backward[commands.len() as int] == forward[commands.len() as int],
        forall|i: int|
            0 <= i < commands.len() ==> (#[trigger] commands[i]).undone(
                backward[i + 1],
                backward[i],
            ),
    ensures
        forall|i: int| from <= i < forward.len() ==> #[trigger] backward[i] == forward[i],
        forall|i: int|
            from <= i < commands.len() ==> (#[trigger] commands[i]).undo_succeeds(backward[i + 1]),
    decreases commands.len() - from,
{
    if from < commands.len() {
        lemma_undo_down_to(commands, forward, backward, from + 1);
        let c = commands[from];
        c.lemma_undo_restores(forward[from], forward[from + 1], backward[from]);
    }
}

/// Redoing the commands that were undone gives the states after them
/// again. `forward` holds the states that the commands left when they were
/// executed; `again` holds the states that the redos leave, starting from
/// the state before the first of the commands.
pub proof fn lemma_redo_all_repeats<C: Command>(
    commands: Seq<C>,
    forward: Seq<StoreView>,
    again: Seq<StoreView>,
)
    requires
        forward.len() == commands.len() + 1,
        again.len() == commands.len() + 1,
        forall|i: int|
            0 <= i < commands.len() ==> (#[trigger] commands[i]).apply_succeeds(forward[i])
                && commands[i].applied(forward[i], forward[i + 1]),
        again[0] == forward[0],
        forall|i: int|
            0 <= i < commands.len() ==> (#[trigger] commands[i]).applied(again[i], again[i + 1]),
    ensures
        again[commands.len() as int] == forward[commands.len() as int],
        forall|i: int| 0 <= i < forward.len() ==> #[trigger] again[i] == forward[i],
        forall|i: int|
            0 <= i < commands.len() ==> (#[trigger] commands[i]).apply_succeeds(again[i]),
{
    lemma_redo_up_to(commands, forward, again, commands.len() as int);
}

proof fn lemma_redo_up_to<C: Command>(
    commands: Seq<C>,
    forward: Seq<StoreView>,
    again: Seq<StoreView>,
    upto: int,
)
    requires
        0 <= upto <= commands.len(),
        forward.len() == commands.len() + 1,
        again.len() == commands.len() + 1,
        forall|i: int|
            0 <= i < commands.len() ==> (#[trigger] commands[i]).apply_succeeds(forward[i])
                && commands[i].applied(forward[i], forward[i + 1]),
        again[0] == forward[0],
        forall|i: int|
            0 <= i < commands.len() ==> (#[trigger] commands[i]).applied(again[i], again[i + 1]),
    ensures
        forall|i: int| 0 <= i <= upto ==> #[trigger] again[i] == forward[i],
        forall|i: int| 0 <= i < upto ==> (#[trigger] commands[i]).apply_succeeds(again[i]),
    decreases upto,
{
    if upto > 0 {
        lemma_redo_up_to(commands, forward, again, upto - 1);
        let c = commands[upto - 1];
        c.lemma_apply_determined(forward[upto - 1], forward[upto], again[upto]);
    }
}

} // verus!
