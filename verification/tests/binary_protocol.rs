use mosm::binary_protocol::{
    build_viewport_response_v4, collect_ways_geometry, encode_coordinates, encode_nodes,
    encode_polygons_geometry, encode_priority_nodes, encode_ways_geometry, fits_protocol,
    NodeBinary, NodePriorityBinary, PolygonGeometry, ViewportResponseHeader, WayGeometry,
};
use mosm::osm_store::{OsmNode, OsmStore, OsmWay};
use mosm::spatial_query::{query_viewport, Viewport};

fn bits(value: f64) -> u64 {
    value.to_bits()
}

fn way(way_id: i64, render_feature: u16, layer: i8, points: &[(f64, f64)]) -> WayGeometry {
    WayGeometry {
        way_id,
        render_feature,
        layer,
        points: points.iter().map(|p| (bits(p.0), bits(p.1))).collect(),
    }
}

fn u32_at(bytes: &[u8], at: usize) -> u32 {
    u32::from_le_bytes([bytes[at], bytes[at + 1], bytes[at + 2], bytes[at + 3]])
}

fn i64_at(bytes: &[u8], at: usize) -> i64 {
    let mut word = [0u8; 8];
    word.copy_from_slice(&bytes[at..at + 8]);
    i64::from_le_bytes(word)
}

fn f64_at(bytes: &[u8], at: usize) -> f64 {
    let mut word = [0u8; 8];
    word.copy_from_slice(&bytes[at..at + 8]);
    f64::from_le_bytes(word)
}

#[test]
fn test_node_binary_size() {
    assert_eq!(std::mem::size_of::<NodeBinary>(), 24);
}

#[test]
fn test_header_size() {
    assert_eq!(std::mem::size_of::<ViewportResponseHeader>(), 16);
}

#[test]
fn test_encode_nodes() {
    let nodes = vec![
        NodeBinary { id: 1, lat: bits(51.5074), lon: bits(-0.1278) },
        NodeBinary { id: 2, lat: bits(48.8566), lon: bits(2.3522) },
    ];
    let bytes = encode_nodes(&nodes);
    assert_eq!(bytes.len(), 48);
    assert_eq!(i64_at(&bytes, 0), 1);
    assert_eq!(f64_at(&bytes, 8), -0.1278);
    assert_eq!(f64_at(&bytes, 16), 51.5074);
    assert_eq!(i64_at(&bytes, 24), 2);
    assert_eq!(f64_at(&bytes, 32), 2.3522);
    assert_eq!(f64_at(&bytes, 40), 48.8566);
}

#[test]
fn test_encode_ways_geometry_empty() {
    let result = encode_ways_geometry(&Vec::new());
    assert_eq!(result.len(), 4);
    assert_eq!(u32::from_le_bytes([result[0], result[1], result[2], result[3]]), 0);
}

#[test]
fn priority_node_layout() {
    let nodes = [NodePriorityBinary::new(-2, bits(1.5), bits(-2.5), 0x0102)];
    let bytes = encode_priority_nodes(&nodes);
    assert_eq!(bytes.len(), 32);
    assert_eq!(i64_at(&bytes, 0), -2);
    assert_eq!(&bytes[0..8], &[0xfe, 0xff, 0xff, 0xff, 0xff, 0xff, 0xff, 0xff]);
    assert_eq!(f64_at(&bytes, 8), 1.5);
    assert_eq!(f64_at(&bytes, 16), -2.5);
    assert_eq!(&bytes[24..32], &[0x02, 0x01, 0, 0, 0, 0, 0, 0]);
    assert_eq!(encode_priority_nodes(&[]).len(), 0);
}

#[test]
fn coordinates_layout() {
    let bytes = encode_coordinates(&vec![(bits(1.0), bits(2.0)), (1, 0x0102030405060708)]);
    assert_eq!(bytes.len(), 32);
    assert_eq!(f64_at(&bytes, 0), 1.0);
    assert_eq!(f64_at(&bytes, 8), 2.0);
    assert_eq!(&bytes[16..24], &[1, 0, 0, 0, 0, 0, 0, 0]);
    assert_eq!(&bytes[24..32], &[8, 7, 6, 5, 4, 3, 2, 1]);
}

#[test]
fn ways_are_emitted_in_z_order_and_short_ways_left_out() {
    let line = [(0.0, 0.0), (1.0, 1.0)];
    let ways = vec![
        way(1, 1 | 0x0100, 0, &line),     // bridge: 55
        way(2, 1, 0, &line),              // 15
        way(3, 30, 0, &[(5.0, 6.0), (7.0, 8.0), (9.0, 10.0)]), // river: -30
        way(4, 1, 0, &[(0.0, 0.0)]),      // one point: left out
        way(5, 1 | 0x0200, 1, &line),     // tunnel on layer 1: 75
        way(6, 3, 0, &line),              // 5
        way(7, 1, 0, &line),              // 15, after way 2
    ];
    let bytes = encode_ways_geometry(&ways);
    assert_eq!(u32_at(&bytes, 0), 6);
    assert_eq!(bytes.len(), 4 + 5 * (14 + 32) + (14 + 48));
    let mut at = 4;
    let mut seen = Vec::new();
    for _ in 0..6 {
        let id = i64_at(&bytes, at);
        let count = u32_at(&bytes, at + 10) as usize;
        seen.push((id, u16::from_le_bytes([bytes[at + 8], bytes[at + 9]]), count));
        at += 14 + 16 * count;
    }
    assert_eq!(at, bytes.len());
    assert_eq!(
        seen,
        vec![(3, 30, 3), (6, 3, 2), (2, 1, 2), (7, 1, 2), (1, 0x0101, 2), (5, 0x0201, 2)]
    );
    assert_eq!(f64_at(&bytes, 4 + 14), 5.0);
    assert_eq!(f64_at(&bytes, 4 + 14 + 40), 10.0);
}

#[test]
fn polygons_layout() {
    let ring = vec![(bits(0.0), bits(0.0)), (bits(1.0), bits(0.0)), (bits(1.0), bits(1.0)), (bits(0.0), bits(0.0))];
    let hole = vec![(bits(0.25), bits(0.25)); 4];
    let polygons = vec![
        PolygonGeometry { way_id: 9, render_feature: 40, layer: 0, rings: vec![ring.clone()] },
        PolygonGeometry { way_id: 0, render_feature: 51, layer: 0, rings: vec![ring.clone(), hole] },
    ];
    let bytes = encode_polygons_geometry(&polygons);
    assert_eq!(bytes.len(), 4 + (12 + 4 + 64) + (12 + 2 * (4 + 64)));
    assert_eq!(u32_at(&bytes, 0), 2);
    // Water (-35) comes before the building (-10).
    assert_eq!(i64_at(&bytes, 4), 0);
    assert_eq!(&bytes[12..16], &[51, 0, 2, 0]);
    assert_eq!(u32_at(&bytes, 16), 4);
    let second = 4 + 12 + 2 * (4 + 64);
    assert_eq!(i64_at(&bytes, second), 9);
    assert_eq!(&bytes[second + 8..second + 12], &[40, 0, 1, 0]);
    assert_eq!(f64_at(&bytes, second + 12 + 4 + 16), 1.0);
    assert_eq!(encode_polygons_geometry(&Vec::new()), vec![0, 0, 0, 0]);
}

#[test]
fn response_size_follows_the_counts() {
    let nodes = [NodePriorityBinary::new(1, 0, 0, 2), NodePriorityBinary::new(2, 0, 0, 0)];
    let ways = vec![
        way(1, 1, 0, &[(0.0, 0.0), (1.0, 1.0), (2.0, 2.0)]),
        way(2, 1, 0, &[(0.0, 0.0)]),
        way(3, 30, 0, &[(0.0, 0.0), (1.0, 1.0)]),
    ];
    let polygons = vec![PolygonGeometry {
        way_id: 4,
        render_feature: 40,
        layer: 0,
        rings: vec![vec![(0, 0); 5], vec![(0, 0); 4]],
    }];
    assert!(fits_protocol(&ways, &polygons));
    let bytes = build_viewport_response_v4(&nodes, &ways, &polygons, true);
    let expected = 16 + 32 * 2 + 4 + (14 + 16 * 3) + (14 + 16 * 2) + 4 + (12 + (4 + 16 * 5) + (4 + 16 * 4));
    assert_eq!(bytes.len(), expected);
    assert_eq!(
        (u32_at(&bytes, 0), u32_at(&bytes, 4), u32_at(&bytes, 8), u32_at(&bytes, 12)),
        (2, 2, 1, 1)
    );
    assert_eq!(u32_at(&bytes, 16 + 64), 2);
    assert_eq!(i64_at(&bytes, 16 + 64 + 4), 3);
    let unmarked = build_viewport_response_v4(&nodes, &ways, &polygons, false);
    assert_eq!(u32_at(&unmarked, 12), 0);
}

#[test]
fn too_many_rings_do_not_fit() {
    let polygons = vec![PolygonGeometry {
        way_id: 1,
        render_feature: 0,
        layer: 0,
        rings: vec![Vec::new(); 65_536],
    }];
    assert!(!fits_protocol(&Vec::new(), &polygons));
    let polygons = vec![PolygonGeometry {
        way_id: 1,
        render_feature: 0,
        layer: 0,
        rings: vec![Vec::new(); 65_535],
    }];
    assert!(fits_protocol(&Vec::new(), &polygons));
}

#[test]
fn empty_store_query() {
    let store = OsmStore::new();
    for zoom in [0, 18, 30] {
        let viewport = Viewport { min_lon: -1_800_000_000, min_lat: -900_000_000, max_lon: 1_800_000_000, max_lat: 900_000_000, zoom };
        let found = query_viewport(&store, &viewport);
        assert!(found.nodes.is_empty() && found.way_ids.is_empty() && found.polygons.is_empty());
        assert!(!found.truncated);
        let shapes = collect_ways_geometry(&store, &found.way_ids);
        assert!(shapes.is_empty());
        let bytes = build_viewport_response_v4(&[], &Vec::new(), &Vec::new(), found.truncated);
        // Header of four zero counts, then no ways, then no polygons.
        assert_eq!(bytes, vec![0u8; 16 + 4 + 4]);
    }
}

#[test]
fn way_shapes_hold_the_points_that_are_present() {
    let mut store = OsmStore::new();
    store.insert_node(OsmNode { id: 1, lat: 10, lon: 20, tags: Vec::new() });
    store.insert_node(OsmNode { id: 3, lat: 30, lon: 40, tags: Vec::new() });
    store.insert_way(OsmWay { id: 5, node_refs: vec![1, 2, 3, 1], tags: Vec::new(), render_feature: 4, layer: -1, is_area: false });
    let shapes = collect_ways_geometry(&store, &[404, 5]);
    assert_eq!(shapes.len(), 1);
    assert_eq!((shapes[0].way_id, shapes[0].render_feature, shapes[0].layer), (5, 4, -1));
    assert_eq!(shapes[0].points, vec![(20, 10), (40, 30), (20, 10)]);
}
