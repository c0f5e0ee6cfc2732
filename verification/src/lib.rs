//! In-memory OpenStreetMap data engine: a typed entity store with spatial
//! indices, tag classification, polygon assembly, viewport selection, binary
//! framing of query results and an undoable edit history.
//!
//! The engine computes on whole numbers. A geographic position is a pair of
//! whole numbers of 1e-7 degree, which is how OpenStreetMap stores it. A
//! projected coordinate is the 64-bit word of its IEEE 754 binary64 value:
//! the engine frames such words and never looks inside them. Projection,
//! distances and the reading of files are the caller's part.
//!
//! Every function carries its contract, and Verus proves it. What is taken
//! on trust is marked `external_body` and says which function of `dashmap`,
//! `rstar` or std it stands for.

pub mod binary_protocol;
pub mod commands;
pub mod consistency_laws;
pub mod count_laws;
pub mod delete_laws;
pub mod endpoint_index;
pub mod entity_map;
pub mod history;
pub mod history_laws;
pub mod index_laws;
pub mod osm_store;
pub mod pbf_parser;
pub mod polygon_assembler;
pub mod render_feature;
pub mod seq_facts;
pub mod spatial_index;
pub mod spatial_query;
pub mod stable_order;
pub mod tags;
pub mod types;

use crate::history::{EditCommand, HistoryManager};
use crate::osm_store::OsmStore;
use vstd::prelude::*;

verus! {

/// The whole state of the editor: the store and the edit history.
pub struct AppState {
    pub store: OsmStore,
    pub history: HistoryManager<EditCommand>,
}

impl Default for AppState {
    fn default() -> (state: Self)
        ensures
            state.store@.keyed(),
            crate::consistency_laws::consistent(state.store@),
            state.store@.nodes == Map::<i64, crate::osm_store::NodeView>::empty(),
            state.history.undo_list() == Seq::<EditCommand>::empty(),
            state.history.redo_list() == Seq::<EditCommand>::empty(),
    {
        AppState { store: OsmStore::new(), history: HistoryManager::new() }
    }
}

} // verus!
