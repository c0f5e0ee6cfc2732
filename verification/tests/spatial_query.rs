use mosm::osm_store::{OsmNode, OsmStore, OsmWay};
use mosm::spatial_query::{
    closest_within, get_node_lod_config, get_render_limits, pick_feature, pick_node_candidates,
    pick_way_candidates, query_viewport, select_viewport, tile_zoom, tiles_in_viewport,
    NodeLodConfig, PickCandidate, PickedFeature, TileCoord, Viewport,
};
use mosm::stable_order::stable_order;

fn node(id: i64, lon: i32, lat: i32) -> OsmNode {
    OsmNode { id, lat, lon, tags: Vec::new() }
}

fn way(id: i64, node_refs: Vec<i64>, is_area: bool) -> OsmWay {
    OsmWay { id, node_refs, tags: Vec::new(), render_feature: 3, layer: 0, is_area }
}

fn city() -> OsmStore {
    let mut store = OsmStore::new();
    for (id, lon, lat) in [(1, 0, 0), (2, 10, 0), (3, 10, 10), (4, 0, 10), (5, 50, 50)] {
        store.insert_node(node(id, lon, lat));
    }
    store.insert_way(way(100, vec![1, 2, 3, 4, 1], true));
    store.insert_way(way(101, vec![2, 5], false));
    store.insert_way(way(102, vec![3, 5, 2], false));
    store.insert_way(way(103, vec![4, 404, 4, 405], true));
    store.rebuild_indices();
    store
}

#[test]
fn lod_table() {
    let hidden = NodeLodConfig { show_nodes: false, min_ref_count: 0, max_nodes: 0 };
    for (zoom, ways) in [(0, 5_000), (8, 5_000), (9, 15_000), (11, 15_000), (12, 40_000), (14, 40_000), (15, 80_000), (17, 80_000)] {
        assert_eq!(get_node_lod_config(zoom), hidden);
        assert_eq!(get_render_limits(zoom).1, ways);
    }
    let junctions = NodeLodConfig { show_nodes: true, min_ref_count: 2, max_nodes: 50_000 };
    assert_eq!(get_node_lod_config(18), junctions);
    assert_eq!(get_node_lod_config(19), junctions);
    let all = NodeLodConfig { show_nodes: true, min_ref_count: 0, max_nodes: 100_000 };
    assert_eq!(get_node_lod_config(20), all);
    assert_eq!(get_node_lod_config(21), all);
    let more = NodeLodConfig { show_nodes: true, min_ref_count: 0, max_nodes: 300_000 };
    assert_eq!(get_node_lod_config(22), more);
    assert_eq!(get_node_lod_config(24), more);
    assert_eq!(get_node_lod_config(25), more);
    assert_eq!(get_node_lod_config(u32::MAX), more);
    assert_eq!(get_render_limits(18), (300_000, 150_000));
    assert_eq!(get_render_limits(21), (300_000, 150_000));
    assert_eq!(get_render_limits(22), (500_000, 250_000));
    assert_eq!(get_render_limits(24), (500_000, 250_000));
    assert_eq!(get_render_limits(25), (800_000, 400_000));
    assert_eq!(get_render_limits(0).0, 10_000);
}

#[test]
fn viewport_measures() {
    let viewport = Viewport { min_lon: -10, min_lat: 5, max_lon: 20, max_lat: 9, zoom: 13 };
    assert_eq!(viewport.area(), 120);
    assert!(viewport.needs_simplification());
    assert_eq!(viewport.min_feature_size_deg(), 10_000);
    let whole = Viewport { min_lon: i32::MIN, min_lat: i32::MIN, max_lon: i32::MAX, max_lat: i32::MAX, zoom: 14 };
    assert_eq!(whole.area(), (u32::MAX as i128) * (u32::MAX as i128));
    assert!(!whole.needs_simplification());
    for (zoom, size) in [(0, 100_000), (10, 100_000), (11, 10_000), (14, 1_000), (16, 1_000), (17, 0)] {
        assert_eq!(Viewport { zoom, ..viewport }.min_feature_size_deg(), size);
    }
}

#[test]
fn stable_order_keeps_equal_keys_in_place() {
    assert_eq!(stable_order(&vec![5, 1, 5, -3, 1, 5]), vec![3, 1, 4, 0, 2, 5]);
    assert_eq!(stable_order(&Vec::new()), Vec::<usize>::new());
}

#[test]
fn selection_orders_and_cuts() {
    let store = city();
    let raw = vec![node(1, 0, 0), node(5, 50, 50), node(4, 0, 10), node(2, 10, 0), node(3, 10, 10)];
    // Counts: 1 -> 2, 2 -> 3, 3 -> 2, 4 -> 3, 5 -> 2.
    let found = select_viewport(&store, &raw, vec![101, 404, 100, 103, 102], 20);
    let ids: Vec<(i64, u16)> = found.nodes.iter().map(|n| (n.id, n.ref_count)).collect();
    assert_eq!(ids, vec![(4, 3), (2, 3), (1, 2), (5, 2), (3, 2)]);
    assert_eq!(found.way_ids, vec![101, 102]);
    assert_eq!(found.polygons.len(), 1);
    assert_eq!(found.polygons[0].way_id, 100);
    assert!(!found.truncated);
    let hidden = select_viewport(&store, &raw, vec![101], 17);
    assert!(hidden.nodes.is_empty());
    assert!(!hidden.truncated);
    let mut store = city();
    store.insert_way(way(200, vec![9, 9], false));
    let mut raw = raw;
    raw.push(node(9, 1, 1));
    raw.push(node(8, 1, 1));
    let junctions = select_viewport(&store, &raw, Vec::new(), 18);
    let ids: Vec<i64> = junctions.nodes.iter().map(|n| n.id).collect();
    assert_eq!(ids, vec![4, 2, 1, 5, 3, 9]);
}

#[test]
fn selection_cuts_ways_at_the_limit() {
    let mut store = OsmStore::new();
    for id in 0..5_002 {
        store.insert_way(way(id, vec![1, 2], false));
    }
    let raw: Vec<i64> = (0..5_002).rev().collect();
    let found = select_viewport(&store, &Vec::new(), raw.clone(), 8);
    assert!(found.truncated);
    assert_eq!(found.way_ids, raw[..5_000].to_vec());
    let found = select_viewport(&store, &Vec::new(), raw[..5_000].to_vec(), 8);
    assert!(!found.truncated);
    assert_eq!(found.way_ids.len(), 5_000);
}

#[test]
fn selection_cuts_nodes_at_the_limit() {
    let store = OsmStore::new();
    let raw: Vec<OsmNode> = (0..50_001).map(|id| node(id, 0, 0)).collect();
    let found = select_viewport(&store, &raw, Vec::new(), 20);
    assert_eq!(found.nodes.len(), 50_001);
    assert!(!found.truncated);
    let raw: Vec<OsmNode> = (0..100_001).map(|id| node(id, 0, 0)).collect();
    let found = select_viewport(&store, &raw, Vec::new(), 21);
    assert_eq!(found.nodes.len(), 100_000);
    assert!(found.truncated);
    assert_eq!(found.nodes[99_999].id, 99_999);
}

#[test]
fn query_asks_the_indices() {
    let store = city();
    let viewport = Viewport { min_lon: 0, min_lat: 0, max_lon: 10, max_lat: 10, zoom: 20 };
    let found = query_viewport(&store, &viewport);
    let mut ids: Vec<i64> = found.nodes.iter().map(|n| n.id).collect();
    ids.sort();
    assert_eq!(ids, vec![1, 2, 3, 4]);
    assert!(found.nodes.windows(2).all(|pair| pair[0].ref_count >= pair[1].ref_count));
    let mut ways = found.way_ids.clone();
    ways.sort();
    assert_eq!(ways, vec![101, 102]);
    assert_eq!(found.polygons.len(), 1);
    let low = query_viewport(&store, &Viewport { zoom: 12, ..viewport });
    assert!(low.nodes.is_empty());
    assert_eq!(low.polygons.len(), 1);
}

#[test]
fn tiles_cover_the_corners() {
    let top_left = TileCoord { x: 3, y: 7, z: 4 };
    let bottom_right = TileCoord { x: 4, y: 9, z: 4 };
    let tiles = tiles_in_viewport(top_left, bottom_right);
    let expected: Vec<TileCoord> = [(3, 7), (3, 8), (3, 9), (4, 7), (4, 8), (4, 9)]
        .iter()
        .map(|&(x, y)| TileCoord { x, y, z: 4 })
        .collect();
    assert_eq!(tiles, expected);
    assert_eq!(tiles_in_viewport(top_left, top_left), vec![top_left]);
    assert!(tiles_in_viewport(bottom_right, top_left).is_empty());
    assert!(tiles_in_viewport(TileCoord { x: 3, y: 9, z: 4 }, TileCoord { x: 4, y: 7, z: 4 }).is_empty());
    let edge = TileCoord { x: u32::MAX, y: u32::MAX, z: 19 };
    assert_eq!(tiles_in_viewport(edge, edge), vec![edge]);
    assert_eq!(tile_zoom(0), 0);
    assert_eq!(tile_zoom(19), 19);
    assert_eq!(tile_zoom(20), 19);
    assert_eq!(tile_zoom(u32::MAX), 19);
}

fn hit(id: i64, distance: u64) -> PickCandidate {
    PickCandidate { id, distance }
}

#[test]
fn closest_candidate_within_tolerance() {
    let candidates = vec![hit(1, 90), hit(2, 40), hit(3, 40), hit(4, 41), hit(5, 100)];
    assert_eq!(closest_within(&candidates, 100), Some(hit(2, 40)));
    assert_eq!(closest_within(&candidates, 40), Some(hit(2, 40)));
    assert_eq!(closest_within(&candidates, 39), None);
    assert_eq!(closest_within(&Vec::new(), u64::MAX), None);
}

#[test]
fn nodes_are_picked_before_ways() {
    let nodes = vec![hit(7, 50)];
    let ways = vec![hit(8, 1)];
    assert_eq!(pick_feature(&nodes, &ways, 50), PickedFeature::Node(7));
    assert_eq!(pick_feature(&nodes, &ways, 49), PickedFeature::Way(8));
    assert_eq!(pick_feature(&nodes, &ways, 0), PickedFeature::Nothing);
    assert_eq!(pick_feature(&Vec::new(), &Vec::new(), 9), PickedFeature::Nothing);
}

#[test]
fn pick_candidates_follow_zoom_and_presence() {
    let mut store = city();
    store.add_node_with_index(node(6, 5, 5));
    let ids = |zoom: u32| -> Vec<i64> {
        let mut ids: Vec<i64> = pick_node_candidates(&store, -1, -1, 11, 11, zoom).iter().map(|n| n.id).collect();
        ids.sort();
        ids
    };
    assert!(ids(17).is_empty());
    assert_eq!(ids(18), vec![1, 2, 3, 4]);
    assert_eq!(ids(19), vec![1, 2, 3, 4]);
    assert_eq!(ids(20), vec![1, 2, 3, 4, 6]);
    let mut ways = pick_way_candidates(&store, 0, 10, 0, 10);
    ways.sort_by_key(|w| w.way_id);
    assert_eq!(ways.len(), 2);
    assert_eq!(ways[0].way_id, 100);
    assert_eq!(
        ways[0].segments,
        vec![((0, 0), (10, 0)), ((10, 0), (10, 10)), ((10, 10), (0, 10)), ((0, 10), (0, 0))]
    );
    // Way 103 has one node present at two places; no segment has both ends.
    assert_eq!(ways[1].way_id, 103);
    assert!(ways[1].segments.is_empty());
}
