//! Edits. Each one is recorded in the history, so that it can be undone.

use crate::consistency_laws::{
    consistent, lemma_add_node_keeps, lemma_delete_node_keeps, lemma_move_keeps,
    lemma_remove_way_keeps, lemma_retag_node_keeps, lemma_retag_way_keeps,
};
use crate::count_laws::lemma_total_refs_split;
use crate::history::{
    cascade_of, failed, references_view, text_of, way_views, AddNodeCommand, Command,
    DeleteNodeCommand, DeleteWayCommand, EditCommand, MoveNodeCommand, ResultView,
    UpdateNodeTagsCommand, UpdateWayTagsCommand,
};
use crate::osm_store::{
    occurrences, positions_of, without_node, NodeView, OsmNode, OsmWay, StoreView, WayView,
};
use crate::polygon_assembler::{is_area, is_area_way};
use crate::render_feature::{feature_of_tags, layer_of_tags, parse_tags};
use crate::seq_facts::lemma_take_step;
use crate::tags::tags_view;
use crate::types::{
    AddNodeResult, DeleteFeatureResult, MoveNodeResult, UndoRedoResult, UpdateTagsResult,
};
use crate::AppState;
use vstd::prelude::*;

verus! {

/// Gives a way new tags, and derives its feature, its layer and its area
/// mark from them.
pub fn update_way_tags(way_id: i64, new_tags: Vec<(String, String)>, state: &mut AppState) -> (result:
    UpdateTagsResult)
    requires
        old(state).store@.keyed(),
    ensures
        final(state).store@.keyed(),
        result.success == old(state).store@.ways.contains_key(way_id),
        !result.success ==> result == (UpdateTagsResult {
            success: false,
            render_feature: 0,
            layer: 0,
            is_area: false,
        }) && final(state).store@ == old(state).store@ && final(state).history == old(state).history,
        result.success ==> {
            let way = old(state).store@.ways[way_id];
            let tags = tags_view(new_tags@);
            &&& result.render_feature == feature_of_tags(tags)
            &&& result.layer == layer_of_tags(tags)
            &&& result.is_area == is_area(tags, way.node_refs)
            &&& final(state).store@ == (StoreView {
                ways: old(state).store@.ways.insert(
                    way_id,
                    WayView {
                        tags,
                        render_feature: result.render_feature,
                        layer: result.layer,
                        is_area: result.is_area,
                        ..way
                    },
                ),
                ..old(state).store@
            })
            &&& final(state).history.undo_list().drop_last() == old(state).history.undo_list()
            &&& final(state).history.undo_list().len() > 0
            &&& final(state).history.undo_list().last() matches EditCommand::UpdateWayTags(c)
                && c.records(old(state).store@)
            &&& final(state).history.undo_list().last().fits(old(state).store@)
            &&& final(state).history.redo_list() == Seq::<EditCommand>::empty()
        },
        consistent(old(state).store@) ==> consistent(final(state).store@),
{
    let way = match state.store.way(way_id) {
        Some(w) => w,
        None => {
            return UpdateTagsResult { success: false, render_feature: 0, layer: 0, is_area: false };
        },
    };
    let parsed = parse_tags(new_tags.as_slice());
    let new_is_area = is_area_way(new_tags.as_slice(), way.node_refs.as_slice());
    let command = UpdateWayTagsCommand {
        way_id,
        old_tags: way.tags,
        new_tags,
        old_render_feature: way.render_feature,
        new_render_feature: parsed.feature,
        old_layer: way.layer,
        new_layer: parsed.layer,
        old_is_area: way.is_area,
        new_is_area,
    };
    let result = state.history.execute(EditCommand::UpdateWayTags(command), &mut state.store);
    proof {
        if consistent(old(state).store@) {
            lemma_retag_way_keeps(old(state).store@, state.store@, state.store@.ways[way_id]);
        }
    }
    UpdateTagsResult {
        success: result.success,
        render_feature: parsed.feature,
        layer: parsed.layer,
        is_area: new_is_area,
    }
}

/// Gives a node new tags.
pub fn update_node_tags(node_id: i64, new_tags: Vec<(String, String)>, state: &mut AppState) -> (result:
    UpdateTagsResult)
    requires
        old(state).store@.keyed(),
    ensures
        final(state).store@.keyed(),
        result == (UpdateTagsResult {
            success: old(state).store@.nodes.contains_key(node_id),
            render_feature: 0,
            layer: 0,
            is_area: false,
        }),
        !result.success ==> final(state).store@ == old(state).store@ && final(state).history
            == old(state).history,
        result.success ==> {
            &&& final(state).store@ == (StoreView {
                nodes: old(state).store@.nodes.insert(
                    node_id,
                    NodeView { tags: tags_view(new_tags@), ..old(state).store@.nodes[node_id] },
                ),
                ..old(state).store@
            })
            &&& final(state).history.undo_list().drop_last() == old(state).history.undo_list()
            &&& final(state).history.undo_list().len() > 0
            &&& final(state).history.undo_list().last() matches EditCommand::UpdateNodeTags(c)
                && c.records(old(state).store@)
            &&& final(state).history.undo_list().last().fits(old(state).store@)
            &&& final(state).history.redo_list() == Seq::<EditCommand>::empty()
        },
        consistent(old(state).store@) ==> consistent(final(state).store@),
{
    let node = match state.store.node(node_id) {
        Some(n) => n,
        None => {
            return UpdateTagsResult { success: false, render_feature: 0, layer: 0, is_area: false };
        },
    };
    let command = UpdateNodeTagsCommand { node_id, old_tags: node.tags, new_tags };
    let result = state.history.execute(EditCommand::UpdateNodeTags(command), &mut state.store);
    proof {
        if consistent(old(state).store@) {
            lemma_retag_node_keeps(old(state).store@, state.store@, state.store@.nodes[node_id]);
        }
    }
    UpdateTagsResult { success: result.success, render_feature: 0, layer: 0, is_area: false }
}

/// Takes the last edit back.
pub fn undo(state: &mut AppState) -> (result: UndoRedoResult)
    requires
        old(state).store@.keyed(),
    ensures
        final(state).store@.keyed(),
        (ResultView {
            success: result.success,
            needs_redraw: result.needs_redraw,
            message: text_of(result.message),
        }) == (if old(state).history.undo_list().len() == 0 {
            failed("Nothing to undo"@)
        } else {
            old(state).history.undo_list().last().undo_report(old(state).store@)
        }),
        result.undo_count == final(state).history.undo_list().len(),
        result.redo_count == final(state).history.redo_list().len(),
        old(state).history.undo_list().len() == 0 ==> {
            &&& final(state).store@ == old(state).store@
            &&& final(state).history.undo_list() == old(state).history.undo_list()
            &&& final(state).history.redo_list() == old(state).history.redo_list()
        },
        old(state).history.undo_list().len() > 0 ==> {
            let command = old(state).history.undo_list().last();
            &&& result.success == command.undo_succeeds(old(state).store@)
            &&& command.undone(old(state).store@, final(state).store@)
            &&& final(state).history.undo_list() == old(state).history.undo_list().drop_last()
            &&& final(state).history.redo_list() == (if result.success {
                old(state).history.redo_list().push(command)
            } else {
                old(state).history.redo_list()
            })
        },
{
    let result = state.history.undo(&mut state.store);
    UndoRedoResult {
        success: result.success,
        needs_redraw: result.needs_redraw,
        message: result.message,
        undo_count: state.history.undo_count(),
        redo_count: state.history.redo_count(),
    }
}

/// Carries the last undone edit out again.
pub fn redo(state: &mut AppState) -> (result: UndoRedoResult)
    requires
        old(state).store@.keyed(),
    ensures
        final(state).store@.keyed(),
        (ResultView {
            success: result.success,
            needs_redraw: result.needs_redraw,
            message: text_of(result.message),
        }) == (if old(state).history.redo_list().len() == 0 {
            failed("Nothing to redo"@)
        } else {
            old(state).history.redo_list().last().apply_report(old(state).store@)
        }),
        result.undo_count == final(state).history.undo_list().len(),
        result.redo_count == final(state).history.redo_list().len(),
        old(state).history.redo_list().len() == 0 ==> {
            &&& final(state).store@ == old(state).store@
            &&& final(state).history.undo_list() == old(state).history.undo_list()
            &&& final(state).history.redo_list() == old(state).history.redo_list()
        },
        old(state).history.redo_list().len() > 0 ==> {
            let command = old(state).history.redo_list().last();
            &&& result.success == command.apply_succeeds(old(state).store@)
            &&& command.applied(old(state).store@, final(state).store@)
            &&& final(state).history.redo_list() == old(state).history.redo_list().drop_last()
            &&& final(state).history.undo_list() == (if result.success {
                old(state).history.undo_list().push(command)
            } else {
                old(state).history.undo_list()
            })
        },
{
    let result = state.history.redo(&mut state.store);
    UndoRedoResult {
        success: result.success,
        needs_redraw: result.needs_redraw,
        message: result.message,
        undo_count: state.history.undo_count(),
        redo_count: state.history.redo_count(),
    }
}

/// How many edits can be undone, and how many redone.
pub fn get_history_state(state: &AppState) -> (counts: (usize, usize))
    ensures
        counts.0 == state.history.undo_list().len(),
        counts.1 == state.history.redo_list().len(),
{
    (state.history.undo_count(), state.history.redo_count())
}

/// Moves a node to a position, given in units of 1e-7 degree.
pub fn move_node(node_id: i64, new_lon: i32, new_lat: i32, state: &mut AppState) -> (result:
    MoveNodeResult)
    requires
        old(state).store@.keyed(),
    ensures
        final(state).store@.keyed(),
        text_of(result.message) == (if result.success {
            None
        } else {
            Some("Node not found"@)
        }),
        result.success == old(state).store@.nodes.contains_key(node_id),
        !result.success ==> final(state).store@ == old(state).store@ && final(state).history
            == old(state).history,
        result.success ==> {
            &&& old(state).store@.moved(final(state).store@, node_id, new_lon, new_lat)
            &&& final(state).history.undo_list().drop_last() == old(state).history.undo_list()
            &&& final(state).history.undo_list().len() > 0
            &&& final(state).history.undo_list().last() matches EditCommand::MoveNode(c)
                && c.records(old(state).store@) && c.new_lon == new_lon && c.new_lat == new_lat
            &&& consistent(old(state).store@) ==> final(state).history.undo_list().last().fits(
                old(state).store@,
            )
            &&& final(state).history.redo_list() == Seq::<EditCommand>::empty()
        },
        consistent(old(state).store@) ==> consistent(final(state).store@),
{
    let (old_lon, old_lat) = match state.store.node_position(node_id) {
        Some(p) => p,
        None => {
            return MoveNodeResult {
                success: false,
                message: Some("Node not found".to_owned()),
            };
        },
    };
    let command = MoveNodeCommand { node_id, old_lon, old_lat, new_lon, new_lat };
    let result = state.history.execute(EditCommand::MoveNode(command), &mut state.store);
    proof {
        if consistent(old(state).store@) {
            lemma_move_keeps(old(state).store@, state.store@, node_id, new_lon, new_lat);
        }
    }
    MoveNodeResult { success: result.success, message: result.message }
}

/// Adds a node without tags at a position, given in units of 1e-7 degree,
/// under a fresh local identifier.
pub fn add_node(lon: i32, lat: i32, state: &mut AppState) -> (result: AddNodeResult)
    requires
        old(state).store@.keyed(),
    ensures
        final(state).store@.keyed(),
        result.message is None,
        result.success,
        result.node_id == old(state).store@.next_local_id,
        final(state).store@ == (StoreView {
            next_local_id: final(state).store@.next_local_id,
            ..old(state).store@.with_node(
                NodeView { id: result.node_id, lat, lon, tags: Seq::empty() },
            )
        }),
        final(state).store@.next_local_id == (if result.node_id == i64::MIN {
            i64::MAX
        } else {
            (result.node_id - 1) as i64
        }),
        final(state).history.undo_list().drop_last() == old(state).history.undo_list(),
        final(state).history.undo_list().len() > 0,
        final(state).history.undo_list().last() matches EditCommand::AddNode(c) && c.node.id
            == result.node_id,
        !old(state).store@.nodes.contains_key(result.node_id)
            ==> final(state).history.undo_list().last().fits(old(state).store@),
        final(state).history.redo_list() == Seq::<EditCommand>::empty(),
        consistent(old(state).store@) && !old(state).store@.is_referenced(result.node_id)
            ==> consistent(final(state).store@),
{
    let node_id = state.store.generate_local_id();
    let node = OsmNode { id: node_id, lon, lat, tags: Vec::new() };
    assert(node@.tags =~= Seq::empty());
    let command = AddNodeCommand { node };
    let ghost recorded = command;
    let result = state.history.execute(EditCommand::AddNode(command), &mut state.store);
    proof {
        let start = old(state).store@;
        if consistent(start) && !start.is_referenced(node_id) {
            let started = StoreView { next_local_id: state.store@.next_local_id, ..start };
            lemma_add_node_keeps(started, recorded.node@);
        }
    }
    AddNodeResult { success: result.success, node_id, message: result.message }
}

/// Deletes a way.
pub fn delete_way(way_id: i64, state: &mut AppState) -> (result: DeleteFeatureResult)
    requires
        old(state).store@.keyed(),
    ensures
        final(state).store@.keyed(),
        text_of(result.message) == (if result.success {
            None
        } else {
            Some("Way not found"@)
        }),
        result.success == old(state).store@.ways.contains_key(way_id),
        result.cascaded_way_ids@.len() == 0,
        !result.success ==> final(state).store@ == old(state).store@ && final(state).history
            == old(state).history,
        result.success ==> {
            &&& final(state).store@ == old(state).store@.without_way(way_id)
            &&& final(state).history.undo_list().drop_last() == old(state).history.undo_list()
            &&& final(state).history.undo_list().len() > 0
            &&& final(state).history.undo_list().last() matches EditCommand::DeleteWay(c)
                && c.records(old(state).store@)
            &&& consistent(old(state).store@) ==> final(state).history.undo_list().last().fits(
                old(state).store@,
            )
            &&& final(state).history.redo_list() == Seq::<EditCommand>::empty()
        },
        consistent(old(state).store@) ==> consistent(final(state).store@),
{
    let way = match state.store.way(way_id) {
        Some(w) => w,
        None => {
            return DeleteFeatureResult {
                success: false,
                message: Some("Way not found".to_owned()),
                cascaded_way_ids: Vec::new(),
            };
        },
    };
    let command = DeleteWayCommand { way };
    let ghost recorded = command;
    let result = state.history.execute(EditCommand::DeleteWay(command), &mut state.store);
    proof {
        let start = old(state).store@;
        if consistent(start) {
            lemma_remove_way_keeps(start, way_id);
            assert forall|n: i64| #[trigger] start.ref_counts[n] >= occurrences(
                recorded.way.node_refs@,
                n,
            ) by {
                lemma_total_refs_split(start.ways, way_id, n);
            }
        }
    }
    DeleteFeatureResult {
        success: result.success,
        message: result.message,
        cascaded_way_ids: Vec::new(),
    }
}

fn positions_in(refs: &Vec<i64>, node_id: i64) -> (positions: Vec<usize>)
    ensures
        positions@ == positions_of(refs@, node_id),
        positions@.len() <= refs@.len(),
{
    let mut positions: Vec<usize> = Vec::new();
    let mut i: usize = 0;
    while i < refs.len()
        invariant
            i <= refs.len(),
            positions@ == positions_of(refs@.take(i as int), node_id),
            positions@.len() <= i,
        decreases refs.len() - i,
    {
        proof {
            lemma_take_step(refs@, i as int);
        }
        if refs[i] == node_id {
            positions.push(i);
        }
        i += 1;
    }
    assert(refs@.take(refs.len() as int) =~= refs@);
    positions
}

fn refs_without(refs: &Vec<i64>, node_id: i64) -> (kept: Vec<i64>)
    ensures
        kept@ == without_node(refs@, node_id),
{
    let mut kept: Vec<i64> = Vec::new();
    let mut i: usize = 0;
    while i < refs.len()
        invariant
            i <= refs.len(),
            kept@ == without_node(refs@.take(i as int), node_id),
        decreases refs.len() - i,
    {
        proof {
            lemma_take_step(refs@, i as int);
        }
        if refs[i] != node_id {
            kept.push(refs[i]);
        }
        i += 1;
    }
    assert(refs@.take(refs.len() as int) =~= refs@);
    kept
}

/// The identifiers of a list of ways, in order.
pub open spec fn ids_of_ways(ways: Seq<WayView>) -> Seq<i64> {
    Seq::new(ways.len(), |i: int| ways[i].id)
}

/// Deletes a node: takes it out of every way that refers to it, deletes the
/// ways that are left with fewer than two nodes, and names them.
pub fn delete_node(node_id: i64, state: &mut AppState) -> (result: DeleteFeatureResult)
    requires
        old(state).store@.keyed(),
    ensures
        final(state).store@.keyed(),
        text_of(result.message) == (if result.success {
            None
        } else {
            Some("Node not found"@)
        }),
        result.success == old(state).store@.nodes.contains_key(node_id),
        !result.success ==> result.cascaded_way_ids@.len() == 0 && final(state).store@ == old(state).store@ && final(state).history == old(state).history,
        result.success ==> {
            &&& final(state).history.undo_list().drop_last() == old(state).history.undo_list()
            &&& final(state).history.undo_list().len() > 0
            &&& final(state).history.undo_list().last() matches EditCommand::DeleteNode(c)
                && c.node.id == node_id && c.records(old(state).store@) && c.applied(
                old(state).store@,
                final(state).store@,
            ) && result.cascaded_way_ids@ == ids_of_ways(way_views(c.cascaded_ways@))
            &&& consistent(old(state).store@) ==> final(state).history.undo_list().last().fits(
                old(state).store@,
            )
            &&& final(state).history.redo_list() == Seq::<EditCommand>::empty()
        },
        consistent(old(state).store@) ==> consistent(final(state).store@),
{
    let node = match state.store.node(node_id) {
        Some(n) => n,
        None => {
            return DeleteFeatureResult {
                success: false,
                message: Some("Node not found".to_owned()),
                cascaded_way_ids: Vec::new(),
            };
        },
    };
    let referencing = state.store.find_ways_referencing_node(node_id);
    let ghost start = state.store@;
    let mut way_references: Vec<(i64, Vec<usize>)> = Vec::new();
    let mut cascaded_ways: Vec<OsmWay> = Vec::new();
    let mut cascaded_way_ids: Vec<i64> = Vec::new();
    let mut i: usize = 0;
    while i < referencing.len()
        invariant
            i <= referencing.len(),
            state.store@ == start,
            start.keyed(),
            *state == *old(state),
            forall|w: i64|
                referencing@.contains(w) <==> (start.ways.contains_key(w)
                    && start.ways[w].node_refs.contains(node_id)),
            way_references@.len() == i,
            forall|k: int| 0 <= k < i ==> (#[trigger] way_references@[k]).0 == referencing@[k],
            forall|k: int|
                0 <= k < i ==> (#[trigger] references_view(way_references@)[k]).1 == positions_of(
                    start.ways[referencing@[k]].node_refs,
                    node_id,
                ),
            way_views(cascaded_ways@) == cascade_of(
                start,
                node_id,
                references_view(way_references@),
            ),
            cascaded_way_ids@ == ids_of_ways(way_views(cascaded_ways@)),
        decreases referencing.len() - i,
    {
        let way_id = referencing[i];
        assert(referencing@.contains(way_id));
        let ghost sofar = references_view(way_references@);
        match state.store.way(way_id) {
            Some(way) => {
                let positions = positions_in(&way.node_refs, node_id);
                let remaining = way.node_refs.len() - positions.len();
                let ghost recorded = positions@;
                if remaining < 2 {
                    let left = OsmWay {
                        id: way.id,
                        node_refs: refs_without(&way.node_refs, node_id),
                        tags: way.tags,
                        render_feature: way.render_feature,
                        layer: way.layer,
                        is_area: way.is_area,
                    };
                    cascaded_way_ids.push(left.id);
                    cascaded_ways.push(left);
                }
                way_references.push((way_id, positions));
                proof {
                    let longer = references_view(way_references@);
                    assert(longer =~= sofar.push((way_id, recorded)));
                    assert(longer.drop_last() =~= sofar);
                }
            },
            None => {
            },
        }
        i += 1;
    }
    let command = DeleteNodeCommand { node, way_references, cascaded_ways };
    let ghost recorded = command;
    proof {
        let references = references_view(command.way_references@);
        assert forall|w: i64|
            (exists|k: int| 0 <= k < references.len() && (#[trigger] references[k]).0 == w) <==> (
            #[trigger] start.ways.contains_key(w) && start.ways[w].node_refs.contains(
                node_id,
            )) by {
            if exists|k: int| 0 <= k < references.len() && (#[trigger] references[k]).0 == w {
                let k = choose|k: int| 0 <= k < references.len() && (#[trigger] references[k]).0 == w;
                assert(referencing@.contains(w));
            }
            if start.ways.contains_key(w) && start.ways[w].node_refs.contains(node_id) {
                assert(referencing@.contains(w));
                let k = choose|k: int| 0 <= k < referencing@.len() && referencing@[k] == w;
                assert(references[k].0 == w);
            }
        }
        assert forall|k: int| 0 <= k < references.len() implies (#[trigger] references[k]).1
            == positions_of(start.ways[references[k].0].node_refs, node_id) by {
        }
    }
    let result = state.history.execute(EditCommand::DeleteNode(command), &mut state.store);
    proof {
        let references = references_view(recorded.way_references@);
        if consistent(start) {
            lemma_delete_node_keeps(
                start,
                node_id,
                references,
                way_views(recorded.cascaded_ways@),
            );
        }
    }
    DeleteFeatureResult { success: result.success, message: result.message, cascaded_way_ids }
}

} // verus!
