//! Loading and summaries.

use crate::consistency_laws::consistent;
use crate::count_laws::counts_exact;
use crate::osm_store::{is_bounds_of, DataBounds, StoreStats, StoreView};
use crate::pbf_parser::{
    elements_view, ingested_all, no_progress, parse_pbf_parallel, progressed_all, ways_have_room,
    ParseProgress, RawElement,
};
use crate::AppState;
use vstd::prelude::*;

verus! {

/// How many nodes, ways and relations there are.
pub fn get_stats(state: &AppState) -> (stats: StoreStats)
    ensures
        stats.node_count == state.store@.nodes.dom().len(),
        stats.way_count == state.store@.ways.dom().len(),
        stats.relation_count == state.store@.relations.dom().len(),
{
    state.store.stats()
}

/// The envelope of all nodes; none where there is no node.
pub fn get_bounds(state: &AppState) -> (bounds: Option<DataBounds>)
    ensures
        bounds is Some <==> exists|k: i64| state.store@.nodes.contains_key(k),
        bounds matches Some(b) ==> is_bounds_of(state.store@.nodes, b),
{
    state.store.get_bounds()
}

/// Loads the elements of a file into the store and builds the indices.
pub fn load_pbf(elements: &Vec<RawElement>, state: &mut AppState) -> (progress: ParseProgress)
    requires
        old(state).store@.keyed(),
    ensures
        final(state).store@.keyed(),
        final(state).history == old(state).history,
        final(state).store@ == (StoreView {
            node_index: final(state).store@.node_index,
            way_index: final(state).store@.way_index,
            index_dirty: false,
            ..ingested_all(old(state).store@, elements_view(elements@))
        }),
        final(state).store@.node_index_exact(),
        final(state).store@.way_index_exact(),
        progress == progressed_all(no_progress(), elements_view(elements@)),
        counts_exact(old(state).store@) && ways_have_room(
            old(state).store@,
            elements_view(elements@),
        ) ==> consistent(final(state).store@),
{
    parse_pbf_parallel(elements, &mut state.store)
}

} // verus!
