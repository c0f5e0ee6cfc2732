use mosm::osm_store::{DataBounds, OsmNode, OsmRelation, OsmStore, OsmWay};
use mosm::spatial_index::SpatialEntry;

fn tag(key: &str, value: &str) -> (String, String) {
    (key.to_string(), value.to_string())
}

fn node(id: i64, lon: i32, lat: i32) -> OsmNode {
    OsmNode { id, lat, lon, tags: Vec::new() }
}

fn way(id: i64, node_refs: Vec<i64>) -> OsmWay {
    OsmWay { id, node_refs, tags: vec![tag("highway", "road")], render_feature: 3, layer: 0, is_area: false }
}

fn entry(id: i64, min_lon: i32, min_lat: i32, max_lon: i32, max_lat: i32) -> SpatialEntry {
    SpatialEntry { id, min_lon, min_lat, max_lon, max_lat }
}

fn sorted(mut entries: Vec<SpatialEntry>) -> Vec<SpatialEntry> {
    entries.sort_by_key(|e| (e.id, e.min_lon, e.min_lat, e.max_lon, e.max_lat));
    entries
}

fn sorted_ids(mut ids: Vec<i64>) -> Vec<i64> {
    ids.sort();
    ids
}

fn small_store() -> OsmStore {
    let mut store = OsmStore::new();
    store.insert_node(node(1, 0, 0));
    store.insert_node(node(2, 100, 50));
    store.insert_node(node(3, -40, 70));
    store.insert_way(way(10, vec![1, 2]));
    store.insert_way(way(11, vec![2, 3, 99, 2]));
    store.insert_way(way(12, vec![98, 99]));
    store.rebuild_indices();
    store
}

#[test]
fn new_store_is_empty() {
    let store = OsmStore::new();
    let stats = store.stats();
    assert_eq!((stats.node_count, stats.way_count, stats.relation_count), (0, 0, 0));
    assert!(store.get_bounds().is_none());
    assert!(store.node_index().is_empty());
    assert!(store.way_index().is_empty());
    assert!(!store.is_index_dirty());
    assert!(store.node(1).is_none());
    assert_eq!(store.ref_count(1), 0);
    assert!(store.query_nodes_in_viewport(-10, -10, 10, 10).is_empty());
    assert!(store.query_way_ids_in_viewport(-10, -10, 10, 10).is_empty());
}

#[test]
fn local_ids_fall_from_minus_one() {
    let mut store = OsmStore::new();
    assert_eq!(store.generate_local_id(), -1);
    assert_eq!(store.generate_local_id(), -2);
    assert_eq!(store.generate_local_id(), -3);
}

#[test]
fn insert_counts_references_and_leaves_indices() {
    let mut store = OsmStore::new();
    store.insert_node(node(1, 0, 0));
    assert!(store.is_index_dirty());
    store.insert_way(way(10, vec![1, 2, 1]));
    store.insert_relation(OsmRelation { id: 5, members: Vec::new(), tags: Vec::new() });
    assert_eq!(store.ref_count(1), 2);
    assert_eq!(store.ref_count(2), 1);
    assert_eq!(store.ref_count(3), 0);
    assert!(store.node_index().is_empty());
    assert!(store.way_index().is_empty());
    let stats = store.stats();
    assert_eq!((stats.node_count, stats.way_count, stats.relation_count), (1, 1, 1));
    assert_eq!(store.relation(5).unwrap().id, 5);
    assert_eq!(store.node_position(1), Some((0, 0)));
    assert_eq!(store.way(10).unwrap().node_refs, vec![1, 2, 1]);
}

#[test]
fn rebuild_gives_one_entry_for_each_node_and_way() {
    let store = small_store();
    assert!(!store.is_index_dirty());
    assert_eq!(
        sorted(store.node_index()),
        vec![entry(1, 0, 0, 0, 0), entry(2, 100, 50, 100, 50), entry(3, -40, 70, -40, 70)]
    );
    // Way 12 has no node present and gets no entry.
    assert_eq!(
        sorted(store.way_index()),
        vec![entry(10, 0, 0, 100, 50), entry(11, -40, 50, 100, 70)]
    );
    assert_eq!(store.compute_way_bbox(&way(77, vec![3, 1, 404])), Some(entry(77, -40, 0, 0, 70)));
    assert_eq!(store.compute_way_bbox(&way(77, vec![404])), None);
}

#[test]
fn bounds_are_tight() {
    let store = small_store();
    assert_eq!(
        store.get_bounds(),
        Some(DataBounds {
            min_lon: -40,
            min_lat: 0,
            max_lon: 100,
            max_lat: 70,
            center_lon: 30,
            center_lat: 35,
        })
    );
    let mut wide = OsmStore::new();
    wide.insert_node(node(1, i32::MIN, -3));
    wide.insert_node(node(2, i32::MAX, 4));
    let bounds = wide.get_bounds().unwrap();
    assert_eq!((bounds.center_lon, bounds.center_lat), (-1, 0));
}

#[test]
fn viewport_queries_take_what_touches_the_box() {
    let store = small_store();
    let ids: Vec<i64> = store.query_nodes_in_viewport(0, 0, 100, 50).iter().map(|n| n.id).collect();
    assert_eq!(sorted_ids(ids), vec![1, 2]);
    // The corners may come in any order.
    let ids: Vec<i64> = store.query_nodes_in_viewport(100, 50, 0, 0).iter().map(|n| n.id).collect();
    assert_eq!(sorted_ids(ids), vec![1, 2]);
    assert_eq!(sorted_ids(store.query_way_ids_in_viewport(100, 50, 200, 60)), vec![10, 11]);
    assert_eq!(sorted_ids(store.query_way_ids_in_viewport(-40, 60, -30, 80)), vec![11]);
    assert!(store.query_way_ids_in_viewport(101, 71, 200, 80).is_empty());
    assert_eq!(sorted(store.node_entries_inside(-50, -1, 1, 80)), vec![entry(1, 0, 0, 0, 0), entry(3, -40, 70, -40, 70)]);
    assert_eq!(sorted(store.way_entries_touching(0, 0, 0, 0)), vec![entry(10, 0, 0, 100, 50)]);
}

#[test]
fn find_ways_referencing_node_lists_each_way_once() {
    let store = small_store();
    assert_eq!(sorted_ids(store.find_ways_referencing_node(2)), vec![10, 11]);
    assert_eq!(sorted_ids(store.find_ways_referencing_node(99)), vec![11, 12]);
    assert!(store.find_ways_referencing_node(404).is_empty());
    assert!(store.is_way_valid(10));
    assert!(!store.is_way_valid(404));
}

#[test]
fn add_and_remove_node_with_index() {
    let mut store = small_store();
    store.add_node_with_index(node(-1, 7, 8));
    assert_eq!(store.node_position(-1), Some((7, 8)));
    assert_eq!(sorted(store.node_index()).first(), Some(&entry(-1, 7, 8, 7, 8)));
    let removed = store.remove_node_with_index(-1).unwrap();
    assert_eq!((removed.id, removed.lon, removed.lat), (-1, 7, 8));
    assert!(store.node(-1).is_none());
    assert_eq!(store.node_index().len(), 3);
    assert!(store.remove_node_with_index(-1).is_none());
    assert_eq!(store.node_index().len(), 3);
}

#[test]
fn add_and_remove_way_with_index() {
    let mut store = small_store();
    store.add_way_with_index(way(20, vec![3, 1, 3]));
    assert_eq!(store.ref_count(3), 3);
    assert_eq!(store.ref_count(1), 2);
    assert!(sorted(store.way_index()).contains(&entry(20, -40, 0, 0, 70)));
    let removed = store.remove_way_with_index(20).unwrap();
    assert_eq!(removed.node_refs, vec![3, 1, 3]);
    assert_eq!(store.ref_count(3), 1);
    assert_eq!(store.ref_count(1), 1);
    assert_eq!(
        sorted(store.way_index()),
        vec![entry(10, 0, 0, 100, 50), entry(11, -40, 50, 100, 70)]
    );
    assert!(store.remove_way_with_index(20).is_none());
}

#[test]
fn counts_saturate() {
    let mut store = OsmStore::new();
    store.insert_way(way(1, vec![7; 70_000]));
    assert_eq!(store.ref_count(7), 65_535);
    store.insert_way(way(2, vec![7]));
    assert_eq!(store.ref_count(7), 65_535);
    store.remove_way_with_index(2);
    assert_eq!(store.ref_count(7), 65_534);
    store.remove_way_with_index(1);
    assert_eq!(store.ref_count(7), 0);
}

#[test]
fn update_node_position_moves_entries() {
    let mut store = small_store();
    assert!(store.update_node_position(2, 200, -10));
    assert_eq!(store.node_position(2), Some((200, -10)));
    assert_eq!(
        sorted(store.node_index()),
        vec![entry(1, 0, 0, 0, 0), entry(2, 200, -10, 200, -10), entry(3, -40, 70, -40, 70)]
    );
    assert_eq!(
        sorted(store.way_index()),
        vec![entry(10, 0, -10, 200, 0), entry(11, -40, -10, 200, 70)]
    );
    assert!(!store.update_node_position(404, 1, 1));
}

#[test]
fn remove_node_from_way_and_put_it_back() {
    let mut store = small_store();
    assert_eq!(store.remove_node_from_way(11, 2), vec![0, 3]);
    assert_eq!(store.way(11).unwrap().node_refs, vec![3, 99]);
    assert_eq!(store.ref_count(2), 1);
    assert!(sorted(store.way_index()).contains(&entry(11, -40, 70, -40, 70)));
    store.insert_node_to_way(11, 2, &[0, 3]);
    assert_eq!(store.way(11).unwrap().node_refs, vec![2, 3, 99, 2]);
    assert_eq!(store.ref_count(2), 3);
    assert!(sorted(store.way_index()).contains(&entry(11, -40, 50, 100, 70)));
    assert_eq!(store.remove_node_from_way(10, 1), vec![0]);
    store.insert_node_to_way(10, 1, &[0]);
    assert_eq!(store.way(10).unwrap().node_refs, vec![1, 2]);
    assert_eq!(store.ref_count(1), 1);
    assert!(store.remove_node_from_way(11, 404).is_empty());
    assert!(store.remove_node_from_way(404, 2).is_empty());
    assert_eq!(store.ref_count(2), 3);
}

#[test]
fn insert_node_to_way_passes_over_positions_beyond_the_end() {
    let mut store = small_store();
    store.insert_node_to_way(10, 5, &[9, 0, usize::MAX, 3]);
    // 9 and the greatest position are beyond the end at their turn; 3 is
    // the end after the one insertion before it.
    assert_eq!(store.way(10).unwrap().node_refs, vec![5, 1, 2, 5]);
    assert_eq!(store.ref_count(5), 2);
    store.insert_node_to_way(10, 5, &[]);
    assert_eq!(store.ref_count(5), 2);
    store.insert_node_to_way(404, 5, &[0]);
    assert_eq!(store.ref_count(5), 2);
    assert!(store.way(404).is_none());
}

#[test]
fn putting_a_node_back_undoes_its_removal_from_a_closed_way() {
    let mut store = OsmStore::new();
    for (id, lon, lat) in [(1, 0, 0), (2, 10, 0), (3, 10, 10)] {
        store.add_node_with_index(node(id, lon, lat));
    }
    store.add_way_with_index(way(10, vec![1, 2, 3, 1]));
    assert_eq!(store.ref_count(1), 2);
    assert_eq!(store.remove_node_from_way(10, 1), vec![0, 3]);
    assert_eq!(store.way(10).unwrap().node_refs, vec![2, 3]);
    assert_eq!(store.ref_count(1), 0);
    store.insert_node_to_way(10, 1, &[0, 3]);
    assert_eq!(store.way(10).unwrap().node_refs, vec![1, 2, 3, 1]);
    assert_eq!(store.ref_count(1), 2);
    assert_eq!(store.way_index(), vec![entry(10, 0, 0, 10, 10)]);
}

#[test]
fn adding_a_node_again_replaces_its_index_entry() {
    let mut store = small_store();
    store.add_node_with_index(node(1, 5, 6));
    assert_eq!(store.node_position(1), Some((5, 6)));
    let entries = sorted(store.node_index());
    assert_eq!(entries.len(), 3);
    assert!(entries.contains(&entry(1, 5, 6, 5, 6)));
    assert!(!entries.contains(&entry(1, 0, 0, 0, 0)));
    assert!(entries.contains(&entry(2, 100, 50, 100, 50)));
    assert!(entries.contains(&entry(3, -40, 70, -40, 70)));
    assert_eq!(store.ref_count(1), 1);
    assert_eq!(store.way(10).unwrap().node_refs, vec![1, 2]);
}

#[test]
fn retag_changes_only_what_is_given() {
    let mut store = small_store();
    assert!(store.retag_way(10, vec![tag("building", "yes")], 40, 2, true));
    let way = store.way(10).unwrap();
    assert_eq!(way.tags, vec![tag("building", "yes")]);
    assert_eq!((way.render_feature, way.layer, way.is_area), (40, 2, true));
    assert_eq!(way.node_refs, vec![1, 2]);
    assert!(!store.retag_way(404, Vec::new(), 0, 0, false));
    assert!(store.retag_node(1, vec![tag("name", "A")]));
    assert_eq!(store.node(1).unwrap().tags, vec![tag("name", "A")]);
    assert!(!store.retag_node(404, Vec::new()));
    assert_eq!(sorted_ids(store.relation_ids()), Vec::<i64>::new());
    let copy = way.duplicate();
    assert_eq!(copy.node_refs, way.node_refs);
    assert_eq!(store.node(1).unwrap().duplicate().tags, vec![tag("name", "A")]);
}

#[test]
fn a_way_that_replaces_another_takes_its_counts_and_entries() {
    let mut store = small_store();
    store.add_way_with_index(way(10, vec![2, 3, 3]));
    assert_eq!(store.way(10).unwrap().node_refs, vec![2, 3, 3]);
    assert_eq!((store.ref_count(1), store.ref_count(2), store.ref_count(3)), (0, 3, 3));
    let entries: Vec<SpatialEntry> =
        store.way_index().into_iter().filter(|e| e.id == 10).collect();
    assert_eq!(entries, vec![entry(10, -40, 50, 100, 70)]);
    store.insert_way(way(11, vec![1]));
    assert_eq!((store.ref_count(1), store.ref_count(2), store.ref_count(3)), (1, 1, 2));
    assert_eq!(store.ref_count(99), 1);
    assert!(store.is_index_dirty());
}
