use mosm::endpoint_index::EndpointIndex;
use mosm::osm_store::{MemberType, OsmNode, OsmRelation, OsmStore, OsmWay, RelationMember};
use mosm::polygon_assembler::{
    assemble_from_closed_way, assemble_from_relation, is_area_way, stitch_segments,
    stitch_ways_to_rings,
};

fn tag(key: &str, value: &str) -> (String, String) {
    (key.to_string(), value.to_string())
}

fn node(id: i64, lon: i32, lat: i32) -> OsmNode {
    OsmNode { id, lat, lon, tags: Vec::new() }
}

fn way(id: i64, node_refs: Vec<i64>, tags: Vec<(String, String)>) -> OsmWay {
    OsmWay { id, node_refs, tags, render_feature: 40, layer: 1, is_area: true }
}

fn member(member_type: MemberType, ref_id: i64, role: &str) -> RelationMember {
    RelationMember { member_type, ref_id, role: role.to_string() }
}

#[test]
fn test_is_area_building() {
    let tags = vec![("building".to_string(), "yes".to_string())];
    let refs = vec![1, 2, 3, 4, 1];
    assert!(is_area_way(&tags, &refs));
}

#[test]
fn test_is_area_not_closed() {
    let tags = vec![("building".to_string(), "yes".to_string())];
    let refs = vec![1, 2, 3, 4, 5];
    assert!(!is_area_way(&tags, &refs));
}

#[test]
fn test_is_area_highway_not_area() {
    let tags = vec![("highway".to_string(), "primary".to_string())];
    let refs = vec![1, 2, 3, 4, 1];
    assert!(!is_area_way(&tags, &refs));
}

#[test]
fn test_is_area_explicit() {
    let tags = vec![
        ("highway".to_string(), "pedestrian".to_string()),
        ("area".to_string(), "yes".to_string()),
    ];
    let refs = vec![1, 2, 3, 4, 1];
    assert!(is_area_way(&tags, &refs));
}

#[test]
fn area_rules() {
    let closed = vec![1, 2, 3, 1];
    assert!(!is_area_way(&[tag("building", "yes")], &[1, 2, 1]));
    assert!(is_area_way(&[tag("landuse", "forest")], &closed));
    assert!(is_area_way(&[tag("leisure", "park")], &closed));
    assert!(is_area_way(&[tag("amenity", "school")], &closed));
    assert!(is_area_way(&[tag("shop", "bakery")], &closed));
    assert!(is_area_way(&[tag("tourism", "zoo")], &closed));
    assert!(is_area_way(&[tag("man_made", "pier")], &closed));
    assert!(!is_area_way(&[tag("building", "no")], &closed));
    assert!(is_area_way(&[tag("natural", "water")], &closed));
    assert!(!is_area_way(&[tag("natural", "coastline")], &closed));
    assert!(!is_area_way(&[tag("natural", "tree_row")], &closed));
    assert!(!is_area_way(&[tag("natural", "no")], &closed));
    assert!(is_area_way(&[tag("waterway", "riverbank")], &closed));
    assert!(is_area_way(&[tag("waterway", "dock")], &closed));
    assert!(is_area_way(&[tag("waterway", "boatyard")], &closed));
    assert!(!is_area_way(&[tag("waterway", "river")], &closed));
    assert!(!is_area_way(&[tag("area", "no")], &closed));
    assert!(!is_area_way(&[], &closed));
    assert!(is_area_way(&[tag("area", "no"), tag("building", "yes")], &closed));
    assert!(is_area_way(&[tag("building", "yes"), tag("area", "no")], &closed));
}

#[test]
fn multipolygon_stitch() {
    let rings = stitch_segments(&vec![vec![1, 2, 3], vec![3, 4, 1]]);
    assert_eq!(rings, vec![vec![1, 2, 3, 4, 1]]);
}

#[test]
fn stitch_reverses_a_segment_that_ends_at_the_tail() {
    let rings = stitch_segments(&vec![vec![1, 2, 3], vec![1, 4, 3]]);
    assert_eq!(rings, vec![vec![1, 2, 3, 4, 1]]);
}

#[test]
fn stitch_takes_lowest_unused_segment_and_drops_open_rings() {
    let segments = vec![vec![1, 2], vec![2, 9], vec![2, 3], vec![3, 1], vec![20, 21, 22, 20]];
    // From [1,2] the walk takes [2,9] first and gets stuck; its segments stay used.
    let rings = stitch_segments(&segments);
    assert_eq!(rings, vec![vec![20, 21, 22, 20]]);
    assert_eq!(stitch_segments(&Vec::new()), Vec::<Vec<i64>>::new());
    // A closed segment of three nodes is too short to be a ring and cannot go on.
    assert_eq!(stitch_segments(&vec![vec![5, 6, 5]]), Vec::<Vec<i64>>::new());
    // Two such segments make a ring of five.
    assert_eq!(stitch_segments(&vec![vec![5, 6, 5], vec![5, 7, 5]]), vec![vec![5, 6, 5, 7, 5]]);
}

fn square_store() -> OsmStore {
    let mut store = OsmStore::new();
    store.insert_node(node(1, 0, 0));
    store.insert_node(node(2, 10, 0));
    store.insert_node(node(3, 10, 10));
    store.insert_node(node(4, 0, 10));
    store
}

#[test]
fn closed_way_gives_one_ring() {
    let mut store = square_store();
    store.insert_way(way(7, vec![1, 2, 3, 4, 1], vec![tag("building", "yes")]));
    let polygon = assemble_from_closed_way(&store, 7).unwrap();
    assert_eq!(polygon.way_id, 7);
    assert_eq!(polygon.render_feature, 40);
    assert_eq!(polygon.layer, 1);
    assert_eq!(polygon.rings, vec![vec![(0, 0), (10, 0), (10, 10), (0, 10), (0, 0)]]);
}

#[test]
fn closed_way_is_rejected() {
    let mut store = square_store();
    store.insert_way(way(7, vec![1, 2, 3, 4], vec![]));
    store.insert_way(way(8, vec![1, 2, 1], vec![]));
    store.insert_way(way(9, vec![1, 2, 99, 1], vec![]));
    store.insert_way(way(10, vec![1, 2, 99, 3, 1], vec![]));
    assert!(assemble_from_closed_way(&store, 7).is_none());
    assert!(assemble_from_closed_way(&store, 8).is_none());
    assert!(assemble_from_closed_way(&store, 9).is_none());
    assert!(assemble_from_closed_way(&store, 404).is_none());
    // A missing node is passed over as long as four points are left.
    let polygon = assemble_from_closed_way(&store, 10).unwrap();
    assert_eq!(polygon.rings, vec![vec![(0, 0), (10, 0), (10, 10), (0, 0)]]);
}

#[test]
fn relation_gives_outer_then_inner_rings() {
    let mut store = square_store();
    store.insert_node(node(11, 2, 2));
    store.insert_node(node(12, 4, 2));
    store.insert_node(node(13, 4, 4));
    store.insert_way(way(100, vec![1, 2, 3], vec![]));
    store.insert_way(way(101, vec![3, 4, 1], vec![]));
    store.insert_way(way(102, vec![11, 12, 13, 11], vec![]));
    store.insert_way(way(103, vec![1], vec![]));
    store.insert_relation(OsmRelation {
        id: 500,
        members: vec![
            member(MemberType::Way, 102, "inner"),
            member(MemberType::Way, 100, "outer"),
            member(MemberType::Node, 1, "outer"),
            member(MemberType::Way, 101, ""),
            member(MemberType::Way, 103, "outer"),
            member(MemberType::Way, 404, "outer"),
            member(MemberType::Way, 100, "label"),
        ],
        tags: vec![tag("type", "multipolygon"), tag("natural", "water"), tag("layer", "-2")],
    });
    let polygon = assemble_from_relation(&store, 500).unwrap();
    assert_eq!(polygon.way_id, 0);
    assert_eq!(polygon.render_feature, 51);
    assert_eq!(polygon.layer, -2);
    assert_eq!(
        polygon.rings,
        vec![
            vec![(0, 0), (10, 0), (10, 10), (0, 10), (0, 0)],
            vec![(2, 2), (4, 2), (4, 4), (2, 2)],
        ]
    );
    assert_eq!(
        stitch_ways_to_rings(&store, &vec![100, 101]),
        vec![vec![(0, 0), (10, 0), (10, 10), (0, 10), (0, 0)]]
    );
}

#[test]
fn relation_is_rejected() {
    let mut store = square_store();
    store.insert_way(way(100, vec![1, 2, 3], vec![]));
    store.insert_way(way(101, vec![3, 4, 1], vec![]));
    store.insert_relation(OsmRelation {
        id: 1,
        members: vec![member(MemberType::Way, 100, "outer"), member(MemberType::Way, 101, "outer")],
        tags: vec![tag("type", "route")],
    });
    store.insert_relation(OsmRelation {
        id: 2,
        members: vec![member(MemberType::Way, 100, "outer")],
        tags: vec![tag("type", "multipolygon")],
    });
    store.insert_relation(OsmRelation {
        id: 3,
        members: vec![member(MemberType::Way, 100, "inner"), member(MemberType::Way, 101, "inner")],
        tags: vec![tag("type", "multipolygon")],
    });
    assert!(assemble_from_relation(&store, 1).is_none());
    assert!(assemble_from_relation(&store, 2).is_none());
    assert!(assemble_from_relation(&store, 3).is_none());
    assert!(assemble_from_relation(&store, 404).is_none());
}

#[test]
fn endpoint_index_finds_the_lowest_unused_segment() {
    let segments = vec![vec![1, 2], vec![3, 1], vec![1, 5, 1], vec![7, 8]];
    let index = EndpointIndex::build(&segments);
    let mut used = vec![false; 4];
    assert_eq!(index.next_unused(&segments, &used, 1), Some((0, true)));
    used[0] = true;
    assert_eq!(index.next_unused(&segments, &used, 1), Some((1, false)));
    used[1] = true;
    assert_eq!(index.next_unused(&segments, &used, 1), Some((2, true)));
    used[2] = true;
    assert_eq!(index.next_unused(&segments, &used, 1), None);
    assert_eq!(index.next_unused(&segments, &used, 8), Some((3, false)));
    assert_eq!(index.next_unused(&segments, &used, 9), None);
}
