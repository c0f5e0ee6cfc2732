use mosm::commands::data::{get_bounds, get_stats, load_pbf};
use mosm::commands::editing::{
    add_node, delete_node, delete_way, get_history_state, move_node, redo, undo, update_node_tags,
    update_way_tags,
};
use mosm::commands::query::{find_parent_relations, get_node_details, get_way_details};
use mosm::history::{
    AddNodeCommand, Command, CommandResult, DeleteNodeCommand, DeleteWayCommand, EditCommand,
    HistoryManager, MoveNodeCommand, UpdateNodeTagsCommand, UpdateWayTagsCommand,
};
use mosm::osm_store::{MemberType, OsmNode, OsmRelation, OsmStore, OsmWay, RelationMember};
use mosm::pbf_parser::{ingest_element, parse_pbf_file, parse_pbf_parallel, ParseProgress, RawElement};
use mosm::spatial_index::SpatialEntry;
use mosm::types::FeatureDetails;
use mosm::AppState;

fn tag(key: &str, value: &str) -> (String, String) {
    (key.to_string(), value.to_string())
}

fn node(id: i64, lon: i32, lat: i32) -> OsmNode {
    OsmNode { id, lat, lon, tags: Vec::new() }
}

fn way(id: i64, node_refs: Vec<i64>) -> OsmWay {
    OsmWay { id, node_refs, tags: vec![tag("highway", "road")], render_feature: 3, layer: 0, is_area: false }
}

fn entry(id: i64, min_lon: i32, min_lat: i32, max_lon: i32, max_lat: i32) -> SpatialEntry {
    SpatialEntry { id, min_lon, min_lat, max_lon, max_lat }
}

/// Everything that can be seen of a store, in a fixed order.
fn snapshot(store: &OsmStore, ids: &[i64]) -> Vec<String> {
    let mut lines = Vec::new();
    let stats = store.stats();
    lines.push(format!("{} {} {}", stats.node_count, stats.way_count, stats.relation_count));
    lines.push(format!("{:?}", store.get_bounds()));
    for &id in ids {
        lines.push(format!("{:?} {:?} {}", store.node(id), store.way(id), store.ref_count(id)));
    }
    let mut nodes = store.node_index();
    nodes.sort_by_key(|e| (e.id, e.min_lon, e.min_lat, e.max_lon, e.max_lat));
    let mut ways = store.way_index();
    ways.sort_by_key(|e| (e.id, e.min_lon, e.min_lat, e.max_lon, e.max_lat));
    lines.push(format!("{:?} {:?}", nodes, ways));
    lines
}

const IDS: [i64; 12] = [-2, -1, 5, 6, 7, 8, 9, 20, 21, 22, 23, 404];

fn town() -> AppState {
    let mut state = AppState::default();
    for (id, lon, lat) in [(5, 0, 0), (6, 10, 0), (7, 10_000_000, 20_000_000), (8, 30, 40), (9, 5, 5)] {
        state.store.insert_node(node(id, lon, lat));
    }
    state.store.insert_way(way(20, vec![5, 6]));
    state.store.insert_way(way(21, vec![7, 8]));
    state.store.insert_way(way(22, vec![6, 9, 8, 5]));
    state.store.insert_way(way(23, vec![9, 6]));
    state.store.rebuild_indices();
    state
}

#[test]
fn command_results() {
    let ok = CommandResult::success(true);
    assert!(ok.success && ok.needs_redraw && ok.message.is_none());
    let failed = CommandResult::failure("Way not found");
    assert!(!failed.success && !failed.needs_redraw);
    assert_eq!(failed.message.as_deref(), Some("Way not found"));
}

#[test]
fn descriptions_name_the_edit() {
    let update = UpdateWayTagsCommand {
        way_id: 12,
        old_tags: Vec::new(),
        new_tags: Vec::new(),
        old_render_feature: 0,
        new_render_feature: 0,
        old_layer: 0,
        new_layer: 0,
        old_is_area: false,
        new_is_area: false,
    };
    assert_eq!(update.description(), "Update tags for Way #12");
    let update = UpdateNodeTagsCommand { node_id: -3, old_tags: Vec::new(), new_tags: Vec::new() };
    assert_eq!(update.description(), "Update tags for Node #-3");
    let moving = MoveNodeCommand {
        node_id: 7,
        old_lon: 10_000_000,
        old_lat: -20_000_000,
        new_lon: 74_246_004,
        new_lat: -437_384_585,
    };
    assert_eq!(
        moving.description(),
        "Move Node #7 from (1.000000, -2.000000) to (7.424600, -43.738459)"
    );
    let adding = AddNodeCommand { node: node(-1, 4, -5) };
    assert_eq!(adding.description(), "Add Node #-1 at (0.000000, -0.000001)");
    let adding = AddNodeCommand { node: node(i64::MIN, i32::MAX, i32::MIN) };
    assert_eq!(
        adding.description(),
        "Add Node #-9223372036854775808 at (214.748365, -214.748365)"
    );
    let adding = AddNodeCommand { node: node(0, -4, 1_800_000_000) };
    assert_eq!(adding.description(), "Add Node #0 at (-0.000000, 180.000000)");
    let deleting = DeleteWayCommand { way: way(20, vec![1, 2]) };
    assert_eq!(deleting.description(), "Delete Way #20");
    let deleting = DeleteNodeCommand {
        node: node(6, 0, 0),
        way_references: vec![(20, vec![1]), (22, vec![0])],
        cascaded_ways: vec![way(20, vec![5])],
    };
    assert_eq!(deleting.description(), "Delete Node #6 (affects 2 ways, cascades 1 way deletions)");
    assert_eq!(EditCommand::DeleteWay(DeleteWayCommand { way: way(1, vec![]) }).description(), "Delete Way #1");
}

#[test]
fn failed_commands_are_not_recorded() {
    let mut store = OsmStore::new();
    let mut history: HistoryManager<EditCommand> = HistoryManager::new();
    let moving = MoveNodeCommand { node_id: 404, old_lon: 0, old_lat: 0, new_lon: 1, new_lat: 1 };
    let result = history.execute(EditCommand::MoveNode(moving), &mut store);
    assert!(!result.success);
    assert_eq!(result.message.as_deref(), Some("Node not found"));
    assert_eq!((history.undo_count(), history.redo_count()), (0, 0));
    let nothing = history.undo(&mut store);
    assert!(!nothing.success && !nothing.needs_redraw);
    assert_eq!(nothing.message.as_deref(), Some("Nothing to undo"));
    let nothing = history.redo(&mut store);
    assert!(!nothing.success && !nothing.needs_redraw);
    assert_eq!(nothing.message.as_deref(), Some("Nothing to redo"));
    assert_eq!((history.undo_count(), history.redo_count()), (0, 0));
    let mut history: HistoryManager<EditCommand> = HistoryManager::default();
    history.execute(EditCommand::AddNode(AddNodeCommand { node: node(1, 0, 0) }), &mut store);
    assert_eq!(history.undo_count(), 1);
    history.clear();
    assert_eq!((history.undo_count(), history.redo_count()), (0, 0));
}

#[test]
fn execute_clears_what_could_be_redone() {
    let mut state = town();
    assert!(add_node(1, 1, &mut state).success);
    assert!(add_node(2, 2, &mut state).success);
    assert!(undo(&mut state).success);
    assert_eq!(get_history_state(&state), (1, 1));
    assert!(add_node(3, 3, &mut state).success);
    assert_eq!(get_history_state(&state), (2, 0));
    assert!(!redo(&mut state).success);
}

#[test]
fn move_undo_round_trip() {
    let mut state = town();
    let before = snapshot(&state.store, &IDS);
    let way_entry = entry(21, 30, 40, 10_000_000, 20_000_000);
    assert!(state.store.way_index().contains(&way_entry));
    let moved = move_node(7, 30_000_000, 40_000_000, &mut state);
    assert!(moved.success);
    assert_eq!(state.store.node_position(7), Some((30_000_000, 40_000_000)));
    assert!(state.store.way_index().contains(&entry(21, 30, 40, 30_000_000, 40_000_000)));
    assert!(!state.store.way_index().contains(&way_entry));
    let after = snapshot(&state.store, &IDS);
    let undone = undo(&mut state);
    assert!(undone.success && undone.needs_redraw);
    assert_eq!((undone.undo_count, undone.redo_count), (0, 1));
    assert_eq!(state.store.node_position(7), Some((10_000_000, 20_000_000)));
    assert!(state.store.way_index().contains(&way_entry));
    assert_eq!(snapshot(&state.store, &IDS), before);
    assert!(redo(&mut state).success);
    assert_eq!(snapshot(&state.store, &IDS), after);
    let missing = move_node(404, 0, 0, &mut state);
    assert!(!missing.success);
    assert_eq!(missing.message.as_deref(), Some("Node not found"));
}

#[test]
fn delete_node_cascade() {
    let mut state = town();
    let before = snapshot(&state.store, &IDS);
    let deleted = delete_node(6, &mut state);
    assert!(deleted.success);
    let mut cascaded = deleted.cascaded_way_ids.clone();
    cascaded.sort();
    assert_eq!(cascaded, vec![20, 23]);
    assert!(state.store.node(6).is_none());
    assert!(state.store.way(20).is_none());
    assert!(state.store.way(23).is_none());
    assert_eq!(state.store.way(22).unwrap().node_refs, vec![9, 8, 5]);
    assert!(state.store.way_index().iter().all(|e| e.id != 20 && e.id != 23));
    assert!(state.store.node_index().iter().all(|e| e.id != 6));
    assert_eq!(state.store.ref_count(6), 0);
    assert_eq!(state.store.ref_count(5), 1);
    assert_eq!(state.store.ref_count(9), 1);
    let after = snapshot(&state.store, &IDS);
    assert!(undo(&mut state).success);
    assert_eq!(state.store.way(20).unwrap().node_refs, vec![5, 6]);
    assert_eq!(state.store.way(23).unwrap().node_refs, vec![9, 6]);
    assert_eq!(state.store.way(22).unwrap().node_refs, vec![6, 9, 8, 5]);
    assert_eq!(snapshot(&state.store, &IDS), before);
    assert!(redo(&mut state).success);
    assert_eq!(snapshot(&state.store, &IDS), after);
    let missing = delete_node(404, &mut state);
    assert!(!missing.success);
    assert_eq!(missing.message.as_deref(), Some("Node not found"));
    assert!(missing.cascaded_way_ids.is_empty());
}

#[test]
fn delete_node_of_a_single_way() {
    let mut state = AppState::default();
    state.store.insert_node(node(5, 0, 0));
    state.store.insert_node(node(6, 1, 1));
    state.store.insert_way(way(30, vec![5, 6]));
    state.store.rebuild_indices();
    let before = snapshot(&state.store, &[5, 6, 30]);
    let deleted = delete_node(6, &mut state);
    assert_eq!(deleted.cascaded_way_ids, vec![30]);
    assert!(state.store.node(6).is_none() && state.store.way(30).is_none());
    assert!(state.store.way_index().is_empty());
    assert!(undo(&mut state).success);
    assert_eq!(state.store.way(30).unwrap().node_refs, vec![5, 6]);
    assert_eq!(snapshot(&state.store, &[5, 6, 30]), before);
}

#[test]
fn undo_all_then_redo_all() {
    let mut state = town();
    let mut states = vec![snapshot(&state.store, &IDS)];
    assert!(update_way_tags(22, vec![tag("building", "yes"), tag("layer", "2")], &mut state).success);
    states.push(snapshot(&state.store, &IDS));
    assert!(update_node_tags(5, vec![tag("name", "five")], &mut state).success);
    states.push(snapshot(&state.store, &IDS));
    assert!(move_node(9, -7, -8, &mut state).success);
    states.push(snapshot(&state.store, &IDS));
    let added = add_node(100, 200, &mut state);
    assert_eq!(added.node_id, -1);
    states.push(snapshot(&state.store, &IDS));
    assert!(delete_way(21, &mut state).success);
    states.push(snapshot(&state.store, &IDS));
    assert!(delete_node(9, &mut state).success);
    states.push(snapshot(&state.store, &IDS));
    for k in (0..6).rev() {
        let undone = undo(&mut state);
        assert!(undone.success);
        assert_eq!((undone.undo_count, undone.redo_count), (k, 6 - k));
        assert_eq!(snapshot(&state.store, &IDS), states[k]);
    }
    assert!(!undo(&mut state).success);
    for k in 1..=6 {
        assert!(redo(&mut state).success);
        assert_eq!(snapshot(&state.store, &IDS), states[k]);
    }
    assert!(!redo(&mut state).success);
}

#[test]
fn update_way_tags_derives_feature_layer_and_area() {
    let mut state = AppState::default();
    for (id, lon, lat) in [(1, 0, 0), (2, 1, 0), (3, 1, 1)] {
        state.store.insert_node(node(id, lon, lat));
    }
    state.store.insert_way(way(40, vec![1, 2, 3, 1]));
    let result = update_way_tags(40, vec![tag("building", "yes"), tag("layer", "9")], &mut state);
    assert!(result.success);
    assert_eq!((result.render_feature, result.layer, result.is_area), (40, 5, true));
    let stored = state.store.way(40).unwrap();
    assert_eq!((stored.render_feature, stored.layer, stored.is_area), (40, 5, true));
    assert_eq!(stored.tags, vec![tag("building", "yes"), tag("layer", "9")]);
    assert!(undo(&mut state).success);
    let stored = state.store.way(40).unwrap();
    assert_eq!((stored.render_feature, stored.layer, stored.is_area), (3, 0, false));
    assert_eq!(stored.tags, vec![tag("highway", "road")]);
    let missing = update_way_tags(404, Vec::new(), &mut state);
    assert_eq!((missing.success, missing.render_feature, missing.layer, missing.is_area), (false, 0, 0, false));
    let missing = update_node_tags(404, Vec::new(), &mut state);
    assert!(!missing.success);
    assert_eq!(get_history_state(&state), (0, 1));
    let missing = delete_way(404, &mut state);
    assert!(!missing.success);
    assert_eq!(missing.message.as_deref(), Some("Way not found"));
}

#[test]
fn added_nodes_get_falling_local_ids() {
    let mut state = AppState::default();
    let first = add_node(1, 2, &mut state);
    let second = add_node(3, 4, &mut state);
    assert_eq!((first.node_id, second.node_id), (-1, -2));
    assert_eq!(state.store.node_position(-2), Some((3, 4)));
    assert_eq!(state.store.node_index().len(), 2);
    assert_eq!(get_stats(&state).node_count, 2);
    assert!(get_bounds(&state).is_some());
}

#[test]
fn details_and_parent_relations() {
    let mut state = town();
    state.store.insert_relation(OsmRelation {
        id: 70,
        members: vec![
            RelationMember { member_type: MemberType::Way, ref_id: 5, role: "x".to_string() },
            RelationMember { member_type: MemberType::Node, ref_id: 5, role: "stop".to_string() },
            RelationMember { member_type: MemberType::Node, ref_id: 5, role: "again".to_string() },
        ],
        tags: vec![tag("name", "Line 1"), tag("type", "route"), tag("type", "other")],
    });
    state.store.insert_relation(OsmRelation {
        id: 71,
        members: vec![RelationMember { member_type: MemberType::Way, ref_id: 22, role: "outer".to_string() }],
        tags: Vec::new(),
    });
    let parents = find_parent_relations(&state.store, MemberType::Node, 5);
    assert_eq!(parents.len(), 1);
    assert_eq!((parents[0].id, parents[0].role.as_str()), (70, "stop"));
    assert_eq!(parents[0].relation_type.as_deref(), Some("route"));
    assert_eq!(parents[0].name.as_deref(), Some("Line 1"));
    match get_node_details(5, &state) {
        FeatureDetails::Node(details) => {
            assert_eq!((details.id, details.lon, details.lat, details.ref_count), (5, 0, 0, 2));
            assert_eq!(details.parent_relations.len(), 1);
        }
        _ => panic!("node 5 is there"),
    }
    match get_way_details(22, &state) {
        FeatureDetails::Way(details) => {
            assert_eq!((details.id, details.node_count, details.is_area), (22, 4, false));
            assert_eq!((details.render_feature, details.layer), (3, 0));
            assert_eq!(details.tags, vec![tag("highway", "road")]);
            assert_eq!(details.parent_relations.len(), 1);
            assert_eq!(details.parent_relations[0].id, 71);
            assert!(details.parent_relations[0].relation_type.is_none());
            assert!(details.parent_relations[0].name.is_none());
        }
        _ => panic!("way 22 is there"),
    }
    assert!(matches!(get_node_details(404, &state), FeatureDetails::NotFound));
    assert!(matches!(get_way_details(404, &state), FeatureDetails::NotFound));
}

fn elements() -> Vec<RawElement> {
    vec![
        RawElement::Node { id: 1, lat: 0, lon: 0, tags: vec![tag("name", "a")] },
        RawElement::Node { id: 2, lat: 0, lon: 10, tags: Vec::new() },
        RawElement::Node { id: 3, lat: 10, lon: 10, tags: Vec::new() },
        RawElement::Way { id: 9, node_refs: vec![1, 2, 3, 1], tags: vec![tag("building", "yes"), tag("bridge", "yes")] },
        RawElement::Way { id: 10, node_refs: vec![1, 2], tags: vec![tag("highway", "primary"), tag("layer", "-1")] },
        RawElement::Relation {
            id: 11,
            members: vec![RelationMember { member_type: MemberType::Way, ref_id: 9, role: "outer".to_string() }],
            tags: vec![tag("type", "multipolygon")],
        },
    ]
}

#[test]
fn ingest_derives_what_the_store_keeps() {
    let mut state = AppState::default();
    let progress = load_pbf(&elements(), &mut state);
    assert_eq!(
        progress,
        ParseProgress { nodes_parsed: 3, ways_parsed: 2, relations_parsed: 1, bytes_read: 0, total_bytes: 0 }
    );
    let area = state.store.way(9).unwrap();
    assert_eq!((area.render_feature, area.layer, area.is_area), (40 | 0x0100, 0, true));
    let road = state.store.way(10).unwrap();
    assert_eq!((road.render_feature, road.layer, road.is_area), (1, -1, false));
    assert_eq!(state.store.ref_count(1), 3);
    assert_eq!(state.store.node(1).unwrap().tags, vec![tag("name", "a")]);
    assert_eq!(state.store.relation(11).unwrap().members.len(), 1);
    assert!(!state.store.is_index_dirty());
    assert_eq!(state.store.node_index().len(), 3);
    assert_eq!(state.store.way_index().len(), 2);
    let stats = get_stats(&state);
    assert_eq!((stats.node_count, stats.way_count, stats.relation_count), (3, 2, 1));
}

#[test]
fn sequential_ingest_builds_the_indices() {
    let mut store = OsmStore::new();
    let progress = parse_pbf_file(&elements(), &mut store);
    assert_eq!((progress.nodes_parsed, progress.ways_parsed, progress.relations_parsed), (3, 2, 1));
    assert!(!store.is_index_dirty());
    assert_eq!(store.node_index().len(), 3);
    let mut seen: Vec<i64> = store
        .query_nodes_in_viewport(i32::MIN, i32::MIN, i32::MAX, i32::MAX)
        .iter()
        .map(|n| n.id)
        .collect();
    seen.sort();
    let mut all = store.node_index().iter().map(|e| e.id).collect::<Vec<i64>>();
    all.sort();
    assert_eq!(seen, all);
    assert!(!store.query_way_ids_in_viewport(i32::MIN, i32::MIN, i32::MAX, i32::MAX).is_empty());
    let mut other = OsmStore::new();
    let again = parse_pbf_parallel(&elements(), &mut other);
    assert_eq!(again, progress);
    let mut progress = ParseProgress { nodes_parsed: u64::MAX, ways_parsed: 0, relations_parsed: 0, bytes_read: 0, total_bytes: 0 };
    ingest_element(&mut store, &mut progress, &elements()[0]);
    assert_eq!(progress.nodes_parsed, u64::MAX);
}

#[test]
fn single_commands_apply_and_undo() {
    let mut store = OsmStore::new();
    store.insert_node(node(1, 0, 0));
    store.rebuild_indices();
    let adding = AddNodeCommand { node: node(-1, 3, 4) };
    assert!(adding.apply(&mut store).success);
    assert_eq!(store.node_position(-1), Some((3, 4)));
    assert!(adding.undo(&mut store).success);
    assert!(store.node(-1).is_none());
    let deleting = DeleteWayCommand { way: way(50, vec![1, 1]) };
    assert!(deleting.undo(&mut store).success);
    assert_eq!(store.ref_count(1), 2);
    assert_eq!(store.way_index(), vec![entry(50, 0, 0, 0, 0)]);
    assert!(deleting.apply(&mut store).success);
    assert_eq!(store.ref_count(1), 0);
    assert!(store.way_index().is_empty());
    let retag = UpdateNodeTagsCommand { node_id: 1, old_tags: Vec::new(), new_tags: vec![tag("a", "b")] };
    assert!(retag.apply(&mut store).success);
    assert_eq!(store.node(1).unwrap().tags, vec![tag("a", "b")]);
    assert!(retag.undo(&mut store).success);
    assert!(store.node(1).unwrap().tags.is_empty());
    let missing = UpdateNodeTagsCommand { node_id: 404, old_tags: Vec::new(), new_tags: Vec::new() };
    assert_eq!(missing.apply(&mut store).message.as_deref(), Some("Node not found"));
    assert_eq!(missing.undo(&mut store).message.as_deref(), Some("Node not found"));
}

/// What the indices and the counts must hold for the entities with the given identifiers.
fn assert_consistent(store: &OsmStore, node_ids: &[i64], way_ids: &[i64]) {
    let mut points = Vec::new();
    for &id in node_ids {
        if let Some((lon, lat)) = store.node_position(id) {
            points.push(entry(id, lon, lat, lon, lat));
        }
    }
    let mut boxes = Vec::new();
    let mut references = std::collections::HashMap::new();
    for &id in way_ids {
        if let Some(way) = store.way(id) {
            for node_id in &way.node_refs {
                *references.entry(*node_id).or_insert(0u16) += 1;
            }
            if let Some(bbox) = store.compute_way_bbox(&way) {
                boxes.push(bbox);
            }
        }
    }
    let key = |e: &SpatialEntry| (e.id, e.min_lon, e.min_lat, e.max_lon, e.max_lat);
    let mut node_index = store.node_index();
    node_index.sort_by_key(key);
    points.sort_by_key(key);
    assert_eq!(node_index, points);
    let mut way_index = store.way_index();
    way_index.sort_by_key(key);
    boxes.sort_by_key(key);
    assert_eq!(way_index, boxes);
    for &id in node_ids {
        assert_eq!(store.ref_count(id), references.get(&id).copied().unwrap_or(0), "node {}", id);
    }
}

#[test]
fn store_stays_consistent_through_edits() {
    let nodes = [-3, -2, -1, 5, 6, 7, 8, 9, 404];
    let ways = [20, 21, 22, 23];
    let mut state = town();
    assert_consistent(&state.store, &nodes, &ways);
    assert!(move_node(6, -500, 900, &mut state).success);
    assert_consistent(&state.store, &nodes, &ways);
    assert!(add_node(77, 88, &mut state).success);
    assert_consistent(&state.store, &nodes, &ways);
    assert!(delete_way(22, &mut state).success);
    assert_consistent(&state.store, &nodes, &ways);
    assert!(update_way_tags(20, vec![tag("waterway", "canal")], &mut state).success);
    assert_consistent(&state.store, &nodes, &ways);
    assert!(delete_node(6, &mut state).success);
    assert_consistent(&state.store, &nodes, &ways);
    assert!(update_node_tags(9, vec![tag("name", "nine")], &mut state).success);
    assert_consistent(&state.store, &nodes, &ways);
    while undo(&mut state).success {
        assert_consistent(&state.store, &nodes, &ways);
    }
    assert_eq!(get_history_state(&state), (0, 6));
    while redo(&mut state).success {
        assert_consistent(&state.store, &nodes, &ways);
    }
    assert_eq!(get_history_state(&state), (6, 0));
}

#[test]
fn undo_restores_a_closed_way_whose_closing_node_was_deleted() {
    let mut state = AppState::default();
    for (id, lon, lat) in [(1, 0, 0), (2, 1, 0), (3, 1, 1)] {
        state.store.insert_node(node(id, lon, lat));
    }
    state.store.insert_way(way(40, vec![1, 2, 3, 1]));
    state.store.rebuild_indices();
    let before = snapshot(&state.store, &[1, 2, 3, 40]);
    let deleted = delete_node(1, &mut state);
    assert!(deleted.success && deleted.cascaded_way_ids.is_empty());
    assert_eq!(state.store.way(40).unwrap().node_refs, vec![2, 3]);
    assert_eq!(state.store.ref_count(1), 0);
    assert!(state.store.node(1).is_none());
    let undone = undo(&mut state);
    assert!(undone.success && undone.needs_redraw && undone.message.is_none());
    assert_eq!(state.store.way(40).unwrap().node_refs, vec![1, 2, 3, 1]);
    assert_eq!(state.store.ref_count(1), 2);
    assert_eq!(snapshot(&state.store, &[1, 2, 3, 40]), before);
    assert_consistent(&state.store, &[1, 2, 3], &[40]);
    assert!(redo(&mut state).success);
    assert_eq!(state.store.way(40).unwrap().node_refs, vec![2, 3]);
    assert_eq!(get_history_state(&state), (1, 0));
}

#[test]
fn deleting_a_node_that_a_way_holds_only_twice_cascades_and_comes_back() {
    let mut state = AppState::default();
    state.store.insert_node(node(1, 0, 0));
    state.store.insert_node(node(2, 5, 5));
    state.store.insert_way(way(41, vec![1, 2, 1]));
    state.store.rebuild_indices();
    let before = snapshot(&state.store, &[1, 2, 41]);
    let deleted = delete_node(1, &mut state);
    assert!(deleted.success);
    assert_eq!(deleted.cascaded_way_ids, vec![41]);
    assert!(state.store.way(41).is_none());
    assert!(undo(&mut state).success);
    assert_eq!(state.store.way(41).unwrap().node_refs, vec![1, 2, 1]);
    assert_eq!(snapshot(&state.store, &[1, 2, 41]), before);
    assert_consistent(&state.store, &[1, 2], &[41]);
}

#[test]
fn results_are_handed_on_as_the_command_gave_them() {
    let mut store = OsmStore::new();
    store.add_node_with_index(node(7, 10_000_000, 20_000_000));
    store.add_node_with_index(node(8, 0, 0));
    store.add_way_with_index(way(100, vec![7, 8]));
    let mut history: HistoryManager<EditCommand> = HistoryManager::new();
    let moving = MoveNodeCommand {
        node_id: 7,
        old_lon: 10_000_000,
        old_lat: 20_000_000,
        new_lon: 30_000_000,
        new_lat: 40_000_000,
    };
    let result = history.execute(EditCommand::MoveNode(moving), &mut store);
    assert!(result.success && result.needs_redraw && result.message.is_none());
    assert_eq!(store.way_index(), vec![entry(100, 0, 0, 30_000_000, 40_000_000)]);
    let result = history.undo(&mut store);
    assert!(result.success && result.needs_redraw && result.message.is_none());
    assert_eq!(store.way_index(), vec![entry(100, 0, 0, 10_000_000, 20_000_000)]);
    let retag = UpdateNodeTagsCommand { node_id: 8, old_tags: Vec::new(), new_tags: vec![tag("a", "b")] };
    let result = history.execute(EditCommand::UpdateNodeTags(retag), &mut store);
    assert!(result.success && !result.needs_redraw && result.message.is_none());
    let retag = UpdateWayTagsCommand {
        way_id: 404,
        old_tags: Vec::new(),
        new_tags: Vec::new(),
        old_render_feature: 0,
        new_render_feature: 1,
        old_layer: 0,
        new_layer: 0,
        old_is_area: false,
        new_is_area: false,
    };
    let result = history.execute(EditCommand::UpdateWayTags(retag), &mut store);
    assert!(!result.success && !result.needs_redraw);
    assert_eq!(result.message.as_deref(), Some("Way not found"));
    assert_eq!((history.undo_count(), history.redo_count()), (1, 0));
}

#[test]
fn delete_node_deletes_the_node_asked_for() {
    let mut state = AppState::default();
    state.store.add_node_with_index(node(5, 0, 0));
    state.store.add_node_with_index(node(6, 10, 10));
    state.store.add_way_with_index(way(100, vec![5, 6]));
    let result = delete_node(6, &mut state);
    assert!(result.success && result.message.is_none());
    assert_eq!(result.cascaded_way_ids, vec![100]);
    assert!(state.store.node(5).is_some());
    assert!(state.store.node(6).is_none());
    assert!(state.store.way(100).is_none());
    assert!(state.store.way_index().is_empty());
    assert_eq!(state.store.node_index(), vec![entry(5, 0, 0, 0, 0)]);
    assert_eq!((state.store.ref_count(5), state.store.ref_count(6)), (0, 0));
    let stats = state.store.stats();
    assert_eq!((stats.node_count, stats.way_count, stats.relation_count), (1, 0, 0));
    assert_eq!(get_history_state(&state), (1, 0));
    let missing = delete_node(404, &mut state);
    assert!(!missing.success);
    assert_eq!(missing.message.as_deref(), Some("Node not found"));
}
