//! The binary framing of query responses. Every integer is little-endian;
//! a projected coordinate is carried as the 64-bit word of its IEEE 754
//! binary64 value, which is written little-endian like any other word.
//!
//! ```text
//! header    node_count u32, way_count u32, polygon_count u32, truncated u32
//! nodes     node_count records of 32 bytes:
//!           node_id i64, x 8 bytes, y 8 bytes, ref_count u16, 6 bytes of padding
//! ways      total_ways u32, then for each way:
//!           way_id i64, render_feature u16, point_count u32, points of 16 bytes
//! polygons  total_polygons u32, then for each polygon:
//!           way_id i64, render_feature u16, ring_count u16, then for each ring:
//!           point_count u32, points of 16 bytes
//! ```

use crate::osm_store::{NodeView, OsmStore, WayView};
use crate::polygon_assembler::{collect_points, present_points};
use crate::render_feature::{calculate_z_order, z_order_of};
use crate::seq_facts::lemma_take_step;
use crate::stable_order::{arranged, is_stable_order, is_stably_sorted, stable_order};
use vstd::bytes::{
    lemma_auto_spec_u16_to_from_le_bytes, lemma_auto_spec_u32_to_from_le_bytes,
    lemma_auto_spec_u64_to_from_le_bytes, spec_u16_to_le_bytes, spec_u32_to_le_bytes,
    spec_u64_to_le_bytes, u16_to_le_bytes, u32_to_le_bytes, u64_to_le_bytes,
};
use vstd::prelude::*;

verus! {

/// A node on the wire without priority: identifier, then longitude and
/// latitude as binary64 words. 24 bytes.
#[derive(Debug, Clone, Copy, PartialEq, Eq, Structural)]
pub struct NodeBinary {
    pub id: i64,
    pub lon: u64,
    pub lat: u64,
}

/// A node on the wire with priority: identifier, projected position as
/// binary64 words, count of references, padding. 32 bytes.
#[derive(Debug, Clone, Copy, PartialEq, Eq, Structural)]
pub struct NodePriorityBinary {
    pub node_id: i64,
    pub x: u64,
    pub y: u64,
    pub ref_count: u16,
    pub _pad: u16,
    pub _pad2: u32,
}

impl NodePriorityBinary {
    /// A record with its padding set to zero.
    pub fn new(node_id: i64, x: u64, y: u64, ref_count: u16) -> (record: NodePriorityBinary)
        ensures
            record == (NodePriorityBinary { node_id, x, y, ref_count, _pad: 0, _pad2: 0 }),
    {
        NodePriorityBinary { node_id, x, y, ref_count, _pad: 0, _pad2: 0 }
    }
}

/// The header of a viewport response. 16 bytes.
#[derive(Debug, Clone, Copy, PartialEq, Eq, Structural)]
pub struct ViewportResponseHeader {
    pub node_count: u32,
    pub way_count: u32,
    pub polygon_count: u32,
    /// 0 or 1.
    pub truncated: u32,
}

/// A way to be drawn, with its projected points.
#[derive(Debug, Clone)]
pub struct WayGeometry {
    pub way_id: i64,
    pub render_feature: u16,
    pub layer: i8,
    /// `(x, y)` as binary64 words.
    pub points: Vec<(u64, u64)>,
}

/// The mathematical value of a way to be drawn.
pub struct WayGeometryView {
    pub way_id: i64,
    pub render_feature: u16,
    pub layer: i8,
    pub points: Seq<(u64, u64)>,
}

impl View for WayGeometry {
    type V = WayGeometryView;

    open spec fn view(&self) -> WayGeometryView {
        WayGeometryView {
            way_id: self.way_id,
            render_feature: self.render_feature,
            layer: self.layer,
            points: self.points@,
        }
    }
}

/// The mathematical values of a list of ways to be drawn.
pub open spec fn ways_view(ways: Seq<WayGeometry>) -> Seq<WayGeometryView> {
    Seq::new(ways.len(), |i: int| ways[i]@)
}

/// A polygon to be drawn, with its projected rings.
#[derive(Debug, Clone)]
pub struct PolygonGeometry {
    /// 0 for a polygon made from a relation.
    pub way_id: i64,
    pub render_feature: u16,
    pub layer: i8,
    /// Each ring a list of `(x, y)` as binary64 words.
    pub rings: Vec<Vec<(u64, u64)>>,
}

/// The mathematical value of a polygon to be drawn.
pub struct PolygonGeometryView {
    pub way_id: i64,
    pub render_feature: u16,
    pub layer: i8,
    pub rings: Seq<Seq<(u64, u64)>>,
}

/// The mathematical value of a list of projected rings.
pub open spec fn ring_list_view(rings: Seq<Vec<(u64, u64)>>) -> Seq<Seq<(u64, u64)>> {
    Seq::new(rings.len(), |i: int| rings[i]@)
}

impl View for PolygonGeometry {
    type V = PolygonGeometryView;

    open spec fn view(&self) -> PolygonGeometryView {
        PolygonGeometryView {
            way_id: self.way_id,
            render_feature: self.render_feature,
            layer: self.layer,
            rings: ring_list_view(self.rings@),
        }
    }
}

/// The mathematical values of a list of polygons to be drawn.
pub open spec fn polygon_list_view(polygons: Seq<PolygonGeometry>) -> Seq<PolygonGeometryView> {
    Seq::new(polygons.len(), |i: int| polygons[i]@)
}

/// The bytes of a signed identifier: those of its two's complement word.
pub open spec fn id_bytes(id: i64) -> Seq<u8> {
    spec_u64_to_le_bytes(id as u64)
}

/// The bytes of a list of points: x then y of each.
pub open spec fn points_bytes(points: Seq<(u64, u64)>) -> Seq<u8>
    decreases points.len(),
{
    if points.len() == 0 {
        Seq::empty()
    } else {
        points_bytes(points.drop_last()) + spec_u64_to_le_bytes(points.last().0)
            + spec_u64_to_le_bytes(points.last().1)
    }
}

/// The 24 bytes of a node without priority.
pub open spec fn node_bytes(node: NodeBinary) -> Seq<u8> {
    id_bytes(node.id) + spec_u64_to_le_bytes(node.lon) + spec_u64_to_le_bytes(node.lat)
}

/// The bytes of a list of nodes without priority.
pub open spec fn node_list_bytes(nodes: Seq<NodeBinary>) -> Seq<u8>
    decreases nodes.len(),
{
    if nodes.len() == 0 {
        Seq::empty()
    } else {
        node_list_bytes(nodes.drop_last()) + node_bytes(nodes.last())
    }
}

/// The 32 bytes of a node with priority.
pub open spec fn priority_node_bytes(node: NodePriorityBinary) -> Seq<u8> {
    id_bytes(node.node_id) + spec_u64_to_le_bytes(node.x) + spec_u64_to_le_bytes(node.y)
        + spec_u16_to_le_bytes(node.ref_count) + spec_u16_to_le_bytes(node._pad)
        + spec_u32_to_le_bytes(node._pad2)
}

/// The bytes of a list of nodes with priority.
pub open spec fn priority_nodes_bytes(nodes: Seq<NodePriorityBinary>) -> Seq<u8>
    decreases nodes.len(),
{
    if nodes.len() == 0 {
        Seq::empty()
    } else {
        priority_nodes_bytes(nodes.drop_last()) + priority_node_bytes(nodes.last())
    }
}

/// The bytes of one way: identifier, feature, number of points, points.
pub open spec fn way_bytes(way: WayGeometryView) -> Seq<u8> {
    id_bytes(way.way_id) + spec_u16_to_le_bytes(way.render_feature) + spec_u32_to_le_bytes(
        way.points.len() as u32,
    ) + points_bytes(way.points)
}

/// The bytes of a list of ways, one after the other.
pub open spec fn way_list_bytes(ways: Seq<WayGeometryView>) -> Seq<u8>
    decreases ways.len(),
{
    if ways.len() == 0 {
        Seq::empty()
    } else {
        way_list_bytes(ways.drop_last()) + way_bytes(ways.last())
    }
}

/// The ways section: the number of ways, then the ways.
pub open spec fn ways_section(ways: Seq<WayGeometryView>) -> Seq<u8> {
    spec_u32_to_le_bytes(ways.len() as u32) + way_list_bytes(ways)
}

/// The bytes of one ring: number of points, points.
pub open spec fn ring_bytes(ring: Seq<(u64, u64)>) -> Seq<u8> {
    spec_u32_to_le_bytes(ring.len() as u32) + points_bytes(ring)
}

/// The bytes of a list of rings, one after the other.
pub open spec fn ring_list_bytes(rings: Seq<Seq<(u64, u64)>>) -> Seq<u8>
    decreases rings.len(),
{
    if rings.len() == 0 {
        Seq::empty()
    } else {
        ring_list_bytes(rings.drop_last()) + ring_bytes(rings.last())
    }
}

/// The bytes of one polygon: identifier, feature, number of rings, rings.
pub open spec fn polygon_bytes(polygon: PolygonGeometryView) -> Seq<u8> {
    id_bytes(polygon.way_id) + spec_u16_to_le_bytes(polygon.render_feature)
        + spec_u16_to_le_bytes(polygon.rings.len() as u16) + ring_list_bytes(polygon.rings)
}

/// The bytes of a list of polygons, one after the other.
pub open spec fn polygon_list_bytes(polygons: Seq<PolygonGeometryView>) -> Seq<u8>
    decreases polygons.len(),
{
    if polygons.len() == 0 {
        Seq::empty()
    } else {
        polygon_list_bytes(polygons.drop_last()) + polygon_bytes(polygons.last())
    }
}

/// The polygons section: the number of polygons, then the polygons.
pub open spec fn polygons_section(polygons: Seq<PolygonGeometryView>) -> Seq<u8> {
    spec_u32_to_le_bytes(polygons.len() as u32) + polygon_list_bytes(polygons)
}

/// The 16 bytes of a header.
pub open spec fn header_bytes(header: ViewportResponseHeader) -> Seq<u8> {
    spec_u32_to_le_bytes(header.node_count) + spec_u32_to_le_bytes(header.way_count)
        + spec_u32_to_le_bytes(header.polygon_count) + spec_u32_to_le_bytes(header.truncated)
}

/// The ways that are drawn: those with at least two points, in order.
pub open spec fn drawable(ways: Seq<WayGeometryView>) -> Seq<WayGeometryView>
    decreases ways.len(),
{
    if ways.len() == 0 {
        Seq::empty()
    } else if ways.last().points.len() >= 2 {
        drawable(ways.drop_last()).push(ways.last())
    } else {
        drawable(ways.drop_last())
    }
}

/// The drawing order of each way.
pub open spec fn way_keys(ways: Seq<WayGeometryView>) -> Seq<i32> {
    Seq::new(ways.len(), |i: int| z_order_of(ways[i].render_feature, ways[i].layer) as i32)
}

/// The drawing order of each polygon.
pub open spec fn polygon_keys(polygons: Seq<PolygonGeometryView>) -> Seq<i32> {
    Seq::new(
        polygons.len(),
        |i: int| z_order_of(polygons[i].render_feature, polygons[i].layer) as i32,
    )
}

/// Whether `emitted` holds the drawable ways in ascending drawing order,
/// ways of equal order in the order given.
pub open spec fn emits_ways(ways: Seq<WayGeometryView>, emitted: Seq<WayGeometryView>) -> bool {
    is_stably_sorted(drawable(ways), way_keys(drawable(ways)), emitted)
}

/// Whether `emitted` holds the polygons in ascending drawing order, polygons
/// of equal order in the order given.
pub open spec fn emits_polygons(
    polygons: Seq<PolygonGeometryView>,
    emitted: Seq<PolygonGeometryView>,
) -> bool {
    is_stably_sorted(polygons, polygon_keys(polygons), emitted)
}

/// Whether every count of the ways fits the width of its field.
pub open spec fn ways_fit(ways: Seq<WayGeometryView>) -> bool {
    &&& ways.len() <= u32::MAX
    &&& forall|i: int| 0 <= i < ways.len() ==> (#[trigger] ways[i]).points.len() <= u32::MAX
}

/// Whether every count of the polygons fits the width of its field.
pub open spec fn polygons_fit(polygons: Seq<PolygonGeometryView>) -> bool {
    &&& polygons.len() <= u32::MAX
    &&& forall|i: int|
        0 <= i < polygons.len() ==> (#[trigger] polygons[i]).rings.len() <= u16::MAX
    &&& forall|i: int, j: int|
        0 <= i < polygons.len() && 0 <= j < polygons[i].rings.len() ==> (
        #[trigger] polygons[i].rings[j]).len() <= u32::MAX
}

fn put(buffer: &mut Vec<u8>, bytes: Vec<u8>)
    ensures
        final(buffer)@ == old(buffer)@ + bytes@,
{
    let mut bytes = bytes;
    buffer.append(&mut bytes);
}

fn put_id(buffer: &mut Vec<u8>, id: i64)
    ensures
        final(buffer)@ == old(buffer)@ + id_bytes(id),
{
    put(buffer, u64_to_le_bytes(id as u64));
}

fn put_points(buffer: &mut Vec<u8>, points: &Vec<(u64, u64)>)
    ensures
        final(buffer)@ == old(buffer)@ + points_bytes(points@),
{
    let ghost base = buffer@;
    let mut i: usize = 0;
    while i < points.len()
        invariant
            i <= points.len(),
            buffer@ == base + points_bytes(points@.take(i as int)),
        decreases points.len() - i,
    {
        proof {
            lemma_take_step(points@, i as int);
        }
        let p = points[i];
        put(buffer, u64_to_le_bytes(p.0));
        put(buffer, u64_to_le_bytes(p.1));
        i += 1;
    }
    assert(points@.take(points.len() as int) =~= points@);
}

/// Frames nodes without priority: 24 bytes each.
pub fn encode_nodes(nodes: &[NodeBinary]) -> (bytes: Vec<u8>)
    ensures
        bytes@ == node_list_bytes(nodes@),
        bytes@.len() == 24 * nodes@.len(),
{
    let mut buffer: Vec<u8> = Vec::new();
    let mut i: usize = 0;
    proof {
        lemma_auto_spec_u64_to_from_le_bytes();
    }
    while i < nodes.len()
        invariant
            i <= nodes.len(),
            buffer@ == node_list_bytes(nodes@.take(i as int)),
            buffer@.len() == 24 * i,
            forall|x: u64| #[trigger] spec_u64_to_le_bytes(x).len() == 8,
        decreases nodes.len() - i,
    {
        proof {
            lemma_take_step(nodes@, i as int);
        }
        let n = nodes[i];
        put_id(&mut buffer, n.id);
        put(&mut buffer, u64_to_le_bytes(n.lon));
        put(&mut buffer, u64_to_le_bytes(n.lat));
        i += 1;
    }
    assert(nodes@.take(nodes.len() as int) =~= nodes@);
    buffer
}

/// Frames nodes with priority: 32 bytes each.
pub fn encode_priority_nodes(nodes: &[NodePriorityBinary]) -> (bytes: Vec<u8>)
    ensures
        bytes@ == priority_nodes_bytes(nodes@),
        bytes@.len() == 32 * nodes@.len(),
{
    let mut buffer: Vec<u8> = Vec::new();
    let mut i: usize = 0;
    proof {
        lemma_auto_spec_u64_to_from_le_bytes();
        lemma_auto_spec_u32_to_from_le_bytes();
        lemma_auto_spec_u16_to_from_le_bytes();
    }
    while i < nodes.len()
        invariant
            i <= nodes.len(),
            buffer@ == priority_nodes_bytes(nodes@.take(i as int)),
            buffer@.len() == 32 * i,
            forall|x: u64| #[trigger] spec_u64_to_le_bytes(x).len() == 8,
            forall|x: u32| #[trigger] spec_u32_to_le_bytes(x).len() == 4,
            forall|x: u16| #[trigger] spec_u16_to_le_bytes(x).len() == 2,
        decreases nodes.len() - i,
    {
        proof {
            lemma_take_step(nodes@, i as int);
        }
        let n = nodes[i];
        put_id(&mut buffer, n.node_id);
        put(&mut buffer, u64_to_le_bytes(n.x));
        put(&mut buffer, u64_to_le_bytes(n.y));
        put(&mut buffer, u16_to_le_bytes(n.ref_count));
        put(&mut buffer, u16_to_le_bytes(n._pad));
        put(&mut buffer, u32_to_le_bytes(n._pad2));
        i += 1;
    }
    assert(nodes@.take(nodes.len() as int) =~= nodes@);
    buffer
}

/// Frames positions alone: 16 bytes each, x then y.
pub fn encode_coordinates(points: &Vec<(u64, u64)>) -> (bytes: Vec<u8>)
    ensures
        bytes@ == points_bytes(points@),
{
    let mut buffer: Vec<u8> = Vec::new();
    put_points(&mut buffer, points);
    buffer
}

/// The size of the ways: 14 bytes and 16 for each point, for each way.
pub open spec fn ways_size(ways: Seq<WayGeometryView>) -> nat
    decreases ways.len(),
{
    if ways.len() == 0 {
        0
    } else {
        ways_size(ways.drop_last()) + 14 + 16 * ways.last().points.len()
    }
}

/// The size of the rings: 4 bytes and 16 for each point, for each ring.
pub open spec fn rings_size(rings: Seq<Seq<(u64, u64)>>) -> nat
    decreases rings.len(),
{
    if rings.len() == 0 {
        0
    } else {
        rings_size(rings.drop_last()) + 4 + 16 * rings.last().len()
    }
}

/// The size of the polygons: 12 bytes and its rings, for each polygon.
pub open spec fn polygons_size(polygons: Seq<PolygonGeometryView>) -> nat
    decreases polygons.len(),
{
    if polygons.len() == 0 {
        0
    } else {
        polygons_size(polygons.drop_last()) + 12 + rings_size(polygons.last().rings)
    }
}

/// A viewport response: header, nodes, ways section, polygons section. The
/// ways and the polygons are given as they are emitted.
pub open spec fn response_bytes(
    nodes: Seq<NodePriorityBinary>,
    ways: Seq<WayGeometryView>,
    polygons: Seq<PolygonGeometryView>,
    truncated: bool,
) -> Seq<u8> {
    header_bytes(
        ViewportResponseHeader {
            node_count: nodes.len() as u32,
            way_count: ways.len() as u32,
            polygon_count: polygons.len() as u32,
            truncated: if truncated {
                1
            } else {
                0
            },
        },
    ) + priority_nodes_bytes(nodes) + ways_section(ways) + polygons_section(polygons)
}

/// A list of points takes 16 bytes for each point.
pub proof fn lemma_points_size(points: Seq<(u64, u64)>)
    ensures
        points_bytes(points).len() == 16 * points.len(),
    decreases points.len(),
{
    lemma_auto_spec_u64_to_from_le_bytes();
    if points.len() > 0 {
        lemma_points_size(points.drop_last());
    }
}

/// A list of nodes with priority takes 32 bytes for each node.
pub proof fn lemma_priority_nodes_size(nodes: Seq<NodePriorityBinary>)
    ensures
        priority_nodes_bytes(nodes).len() == 32 * nodes.len(),
    decreases nodes.len(),
{
    lemma_auto_spec_u64_to_from_le_bytes();
    lemma_auto_spec_u32_to_from_le_bytes();
    lemma_auto_spec_u16_to_from_le_bytes();
    if nodes.len() > 0 {
        lemma_priority_nodes_size(nodes.drop_last());
    }
}

/// A list of ways takes as many bytes as `ways_size` says.
pub proof fn lemma_ways_size(ways: Seq<WayGeometryView>)
    ensures
        way_list_bytes(ways).len() == ways_size(ways),
    decreases ways.len(),
{
    lemma_auto_spec_u64_to_from_le_bytes();
    lemma_auto_spec_u32_to_from_le_bytes();
    lemma_auto_spec_u16_to_from_le_bytes();
    if ways.len() > 0 {
        lemma_ways_size(ways.drop_last());
        lemma_points_size(ways.last().points);
    }
}

/// A list of rings takes as many bytes as `rings_size` says.
pub proof fn lemma_rings_size(rings: Seq<Seq<(u64, u64)>>)
    ensures
        ring_list_bytes(rings).len() == rings_size(rings),
    decreases rings.len(),
{
    lemma_auto_spec_u32_to_from_le_bytes();
    if rings.len() > 0 {
        lemma_rings_size(rings.drop_last());
        lemma_points_size(rings.last());
    }
}

/// A list of polygons takes as many bytes as `polygons_size` says.
pub proof fn lemma_polygons_size(polygons: Seq<PolygonGeometryView>)
    ensures
        polygon_list_bytes(polygons).len() == polygons_size(polygons),
    decreases polygons.len(),
{
    lemma_auto_spec_u64_to_from_le_bytes();
    lemma_auto_spec_u16_to_from_le_bytes();
    if polygons.len() > 0 {
        lemma_polygons_size(polygons.drop_last());
        lemma_rings_size(polygons.last().rings);
    }
}

/// The size of a response: 16 bytes of header, 32 for each node, 4 and the
/// ways, 4 and the polygons.
pub proof fn lemma_response_size(
    nodes: Seq<NodePriorityBinary>,
    ways: Seq<WayGeometryView>,
    polygons: Seq<PolygonGeometryView>,
    truncated: bool,
)
    ensures
        response_bytes(nodes, ways, polygons, truncated).len() == 16 + 32 * nodes.len() + 4
            + ways_size(ways) + 4 + polygons_size(polygons),
{
    lemma_auto_spec_u32_to_from_le_bytes();
    lemma_priority_nodes_size(nodes);
    lemma_ways_size(ways);
    lemma_polygons_size(polygons);
}

/// Emitted ways appear in ascending drawing order.
pub proof fn lemma_emitted_ways_ascend(
    ways: Seq<WayGeometryView>,
    emitted: Seq<WayGeometryView>,
    i: int,
    j: int,
)
    requires
        emits_ways(ways, emitted),
        0 <= i <= j < emitted.len(),
    ensures
        z_order_of(emitted[i].render_feature, emitted[i].layer) <= z_order_of(
            emitted[j].render_feature,
            emitted[j].layer,
        ),
{
    let given = drawable(ways);
    let keys = way_keys(given);
    let order = choose|order: Seq<usize>|
        keys.len() == given.len() && #[trigger] is_stable_order(keys, order) && emitted
            == arranged(given, order);
}

/// Emitted polygons appear in ascending drawing order.
pub proof fn lemma_emitted_polygons_ascend(
    polygons: Seq<PolygonGeometryView>,
    emitted: Seq<PolygonGeometryView>,
    i: int,
    j: int,
)
    requires
        emits_polygons(polygons, emitted),
        0 <= i <= j < emitted.len(),
    ensures
        z_order_of(emitted[i].render_feature, emitted[i].layer) <= z_order_of(
            emitted[j].render_feature,
            emitted[j].layer,
        ),
{
}

fn drawable_positions(ways: &Vec<WayGeometry>) -> (kept: Vec<usize>)
    ensures
        kept@.len() == drawable(ways_view(ways@)).len(),
        kept@.len() <= ways.len(),
        forall|k: int|
            0 <= k < kept@.len() ==> (#[trigger] kept@[k]) < ways.len() && ways@[kept@[k] as int]@
                == drawable(ways_view(ways@))[k],
{
    let ghost all = ways_view(ways@);
    let mut kept: Vec<usize> = Vec::new();
    let mut i: usize = 0;
    while i < ways.len()
        invariant
            i <= ways.len(),
            all == ways_view(ways@),
            kept@.len() == drawable(all.take(i as int)).len(),
            kept@.len() <= i,
            forall|k: int|
                0 <= k < kept@.len() ==> (#[trigger] kept@[k]) < ways.len() && ways@[kept@[k] as int]@
                    == drawable(all.take(i as int))[k],
        decreases ways.len() - i,
    {
        proof {
            lemma_take_step(all, i as int);
        }
        if ways[i].points.len() >= 2 {
            kept.push(i);
        }
        i += 1;
    }
    assert(all.take(ways.len() as int) =~= all);
    kept
}

fn frame_ways(ways: &Vec<WayGeometry>) -> (framed: (Vec<u8>, usize, Ghost<Seq<WayGeometryView>>))
    requires
        ways_fit(ways_view(ways@)),
    ensures
        emits_ways(ways_view(ways@), framed.2@),
        framed.0@ == ways_section(framed.2@),
        framed.1 == framed.2@.len(),
        framed.1 <= ways.len(),
{
    let ghost given = drawable(ways_view(ways@));
    let kept = drawable_positions(ways);
    let mut keys: Vec<i32> = Vec::new();
    let mut i: usize = 0;
    while i < kept.len()
        invariant
            i <= kept.len(),
            keys.len() == i,
            given == drawable(ways_view(ways@)),
            kept@.len() == given.len(),
            kept@.len() <= ways.len(),
            forall|k: int|
                0 <= k < kept@.len() ==> (#[trigger] kept@[k]) < ways.len() && ways@[kept@[k] as int]@
                    == given[k],
            forall|k: int| 0 <= k < i ==> keys@[k] == way_keys(given)[k],
        decreases kept.len() - i,
    {
        let way = &ways[kept[i]];
        keys.push(calculate_z_order(way.render_feature, way.layer) as i32);
        i += 1;
    }
    assert(keys@ =~= way_keys(given));
    let order = stable_order(&keys);
    let ghost emitted = arranged(given, order@);
    let mut buffer: Vec<u8> = Vec::new();
    put(&mut buffer, u32_to_le_bytes(order.len() as u32));
    let ghost head = buffer@;
    let mut j: usize = 0;
    while j < order.len()
        invariant
            j <= order.len(),
            is_stable_order(keys@, order@),
            keys@.len() == given.len(),
            kept@.len() == given.len(),
            emitted == arranged(given, order@),
            ways_fit(ways_view(ways@)),
            forall|k: int|
                0 <= k < kept@.len() ==> (#[trigger] kept@[k]) < ways.len() && ways@[kept@[k] as int]@
                    == given[k],
            buffer@ == head + way_list_bytes(emitted.take(j as int)),
        decreases order.len() - j,
    {
        proof {
            lemma_take_step(emitted, j as int);
        }
        let position = kept[order[j]];
        let way = &ways[position];
        put_id(&mut buffer, way.way_id);
        put(&mut buffer, u16_to_le_bytes(way.render_feature));
        put(&mut buffer, u32_to_le_bytes(way.points.len() as u32));
        put_points(&mut buffer, &way.points);
        j += 1;
    }
    assert(emitted.take(order.len() as int) =~= emitted);
    (buffer, order.len(), Ghost(emitted))
}

/// Frames the ways section: the ways with at least two points, in ascending
/// drawing order, ways of equal order in the order given.
pub fn encode_ways_geometry(ways: &Vec<WayGeometry>) -> (bytes: Vec<u8>)
    requires
        ways_fit(ways_view(ways@)),
    ensures
        exists|emitted: Seq<WayGeometryView>| #[trigger]
            emits_ways(ways_view(ways@), emitted) && bytes@ == ways_section(emitted),
{
    let framed = frame_ways(ways);
    framed.0
}

fn put_rings(buffer: &mut Vec<u8>, rings: &Vec<Vec<(u64, u64)>>)
    requires
        forall|j: int| 0 <= j < rings.len() ==> (#[trigger] rings[j]).len() <= u32::MAX,
    ensures
        final(buffer)@ == old(buffer)@ + ring_list_bytes(ring_list_view(rings@)),
{
    let ghost base = buffer@;
    let ghost all = ring_list_view(rings@);
    let mut i: usize = 0;
    while i < rings.len()
        invariant
            i <= rings.len(),
            all == ring_list_view(rings@),
            forall|j: int| 0 <= j < rings.len() ==> (#[trigger] rings[j]).len() <= u32::MAX,
            buffer@ == base + ring_list_bytes(all.take(i as int)),
        decreases rings.len() - i,
    {
        proof {
            lemma_take_step(all, i as int);
        }
        let ring = &rings[i];
        put(buffer, u32_to_le_bytes(ring.len() as u32));
        put_points(buffer, ring);
        i += 1;
    }
    assert(all.take(rings.len() as int) =~= all);
}

fn frame_polygons(polygons: &Vec<PolygonGeometry>) -> (framed: (
    Vec<u8>,
    usize,
    Ghost<Seq<PolygonGeometryView>>,
))
    requires
        polygons_fit(polygon_list_view(polygons@)),
    ensures
        emits_polygons(polygon_list_view(polygons@), framed.2@),
        framed.0@ == polygons_section(framed.2@),
        framed.1 == framed.2@.len(),
        framed.1 == polygons.len(),
{
    let ghost given = polygon_list_view(polygons@);
    let mut keys: Vec<i32> = Vec::new();
    let mut i: usize = 0;
    while i < polygons.len()
        invariant
            i <= polygons.len(),
            keys.len() == i,
            given == polygon_list_view(polygons@),
            forall|k: int| 0 <= k < i ==> keys@[k] == polygon_keys(given)[k],
        decreases polygons.len() - i,
    {
        let polygon = &polygons[i];
        keys.push(calculate_z_order(polygon.render_feature, polygon.layer) as i32);
        i += 1;
    }
    assert(keys@ =~= polygon_keys(given));
    let order = stable_order(&keys);
    let ghost emitted = arranged(given, order@);
    let mut buffer: Vec<u8> = Vec::new();
    put(&mut buffer, u32_to_le_bytes(order.len() as u32));
    let ghost head = buffer@;
    let mut j: usize = 0;
    while j < order.len()
        invariant
            j <= order.len(),
            is_stable_order(keys@, order@),
            keys@.len() == given.len(),
            given == polygon_list_view(polygons@),
            emitted == arranged(given, order@),
            polygons_fit(given),
            buffer@ == head + polygon_list_bytes(emitted.take(j as int)),
        decreases order.len() - j,
    {
        proof {
            lemma_take_step(emitted, j as int);
        }
        let position = order[j];
        let polygon = &polygons[position];
        assert forall|r: int| 0 <= r < polygon.rings.len() implies (
        #[trigger] polygon.rings[r]).len() <= u32::MAX by {
            assert(given[position as int].rings[r] == polygon.rings[r]@);
        }
        put_id(&mut buffer, polygon.way_id);
        put(&mut buffer, u16_to_le_bytes(polygon.render_feature));
        put(&mut buffer, u16_to_le_bytes(polygon.rings.len() as u16));
        put_rings(&mut buffer, &polygon.rings);
        j += 1;
    }
    assert(emitted.take(order.len() as int) =~= emitted);
    (buffer, order.len(), Ghost(emitted))
}

/// Frames the polygons section: the polygons in ascending drawing order,
/// polygons of equal order in the order given.
pub fn encode_polygons_geometry(polygons: &Vec<PolygonGeometry>) -> (bytes: Vec<u8>)
    requires
        polygons_fit(polygon_list_view(polygons@)),
    ensures
        exists|emitted: Seq<PolygonGeometryView>| #[trigger]
            emits_polygons(polygon_list_view(polygons@), emitted) && bytes@ == polygons_section(
                emitted,
            ),
{
    let framed = frame_polygons(polygons);
    framed.0
}

/// Whether `bytes` is the response for these nodes, ways and polygons: the
/// nodes as given, the drawable ways and the polygons as they are emitted.
pub open spec fn is_response(
    nodes: Seq<NodePriorityBinary>,
    ways: Seq<WayGeometryView>,
    polygons: Seq<PolygonGeometryView>,
    truncated: bool,
    bytes: Seq<u8>,
) -> bool {
    exists|emitted_ways: Seq<WayGeometryView>, emitted_polygons: Seq<PolygonGeometryView>|
        #![trigger emits_ways(ways, emitted_ways), emits_polygons(polygons, emitted_polygons)]
        emits_ways(ways, emitted_ways) && emits_polygons(polygons, emitted_polygons) && bytes
            == response_bytes(nodes, emitted_ways, emitted_polygons, truncated)
}

/// Builds a viewport response.
pub fn build_viewport_response_v4(
    nodes: &[NodePriorityBinary],
    ways: &Vec<WayGeometry>,
    polygons: &Vec<PolygonGeometry>,
    truncated: bool,
) -> (bytes: Vec<u8>)
    requires
        nodes@.len() <= u32::MAX,
        ways_fit(ways_view(ways@)),
        polygons_fit(polygon_list_view(polygons@)),
    ensures
        is_response(
            nodes@,
            ways_view(ways@),
            polygon_list_view(polygons@),
            truncated,
            bytes@,
        ),
{
    let way_data = frame_ways(ways);
    let node_data = encode_priority_nodes(nodes);
    let polygon_data = frame_polygons(polygons);
    let header = ViewportResponseHeader {
        node_count: nodes.len() as u32,
        way_count: way_data.1 as u32,
        polygon_count: polygon_data.1 as u32,
        truncated: if truncated { 1 } else { 0 },
    };
    let mut response: Vec<u8> = Vec::new();
    put(&mut response, u32_to_le_bytes(header.node_count));
    put(&mut response, u32_to_le_bytes(header.way_count));
    put(&mut response, u32_to_le_bytes(header.polygon_count));
    put(&mut response, u32_to_le_bytes(header.truncated));
    put(&mut response, node_data);
    put(&mut response, way_data.0);
    put(&mut response, polygon_data.0);
    response
}

/// Tests whether every count of the ways and polygons fits the width of its field.
pub fn fits_protocol(ways: &Vec<WayGeometry>, polygons: &Vec<PolygonGeometry>) -> (fits: bool)
    ensures
        fits == (ways_fit(ways_view(ways@)) && polygons_fit(polygon_list_view(polygons@))),
{
    if ways.len() > u32::MAX as usize || polygons.len() > u32::MAX as usize {
        return false;
    }
    let mut i: usize = 0;
    while i < ways.len()
        invariant
            i <= ways.len(),
            forall|k: int|
                0 <= k < i ==> (#[trigger] ways_view(ways@)[k]).points.len() <= u32::MAX,
        decreases ways.len() - i,
    {
        assert(ways_view(ways@)[i as int] == ways@[i as int]@);
        if ways[i].points.len() > u32::MAX as usize {
            return false;
        }
        i += 1;
    }
    let ghost all = polygon_list_view(polygons@);
    let mut p: usize = 0;
    while p < polygons.len()
        invariant
            p <= polygons.len(),
            all == polygon_list_view(polygons@),
            ways_fit(ways_view(ways@)),
            forall|k: int| 0 <= k < p ==> (#[trigger] all[k]).rings.len() <= u16::MAX,
            forall|k: int, r: int|
                0 <= k < p && 0 <= r < all[k].rings.len() ==> (#[trigger] all[k].rings[r]).len()
                    <= u32::MAX,
        decreases polygons.len() - p,
    {
        let polygon = &polygons[p];
        assert(all[p as int] == polygon@);
        if polygon.rings.len() > u16::MAX as usize {
            return false;
        }
        let mut r: usize = 0;
        while r < polygon.rings.len()
            invariant
                r <= polygon.rings.len(),
                p < polygons.len(),
                all == polygon_list_view(polygons@),
                all[p as int] == polygon@,
                forall|q: int|
                    0 <= q < r ==> (#[trigger] all[p as int].rings[q]).len() <= u32::MAX,
            decreases polygon.rings.len() - r,
        {
            assert(all[p as int].rings[r as int] == polygon.rings[r as int]@);
            if polygon.rings[r].len() > u32::MAX as usize {
                return false;
            }
            r += 1;
        }
        p += 1;
    }
    true
}

/// A way with the geographic positions of its nodes that are present, as
/// `(lon, lat)` in units of 1e-7 degree: what is projected to make a
/// `WayGeometry`.
#[derive(Debug, Clone)]
pub struct WayShape {
    pub way_id: i64,
    pub render_feature: u16,
    pub layer: i8,
    pub points: Vec<(i32, i32)>,
}

/// The mathematical value of a way shape.
pub struct WayShapeView {
    pub way_id: i64,
    pub render_feature: u16,
    pub layer: i8,
    pub points: Seq<(i32, i32)>,
}

impl View for WayShape {
    type V = WayShapeView;

    open spec fn view(&self) -> WayShapeView {
        WayShapeView {
            way_id: self.way_id,
            render_feature: self.render_feature,
            layer: self.layer,
            points: self.points@,
        }
    }
}

/// The mathematical values of a list of way shapes.
pub open spec fn shapes_view(shapes: Seq<WayShape>) -> Seq<WayShapeView> {
    Seq::new(shapes.len(), |i: int| shapes[i]@)
}

/// The shapes of the ways of a list that are there, in order.
pub open spec fn shapes_of(
    nodes: Map<i64, NodeView>,
    ways: Map<i64, WayView>,
    ids: Seq<i64>,
) -> Seq<WayShapeView>
    decreases ids.len(),
{
    if ids.len() == 0 {
        Seq::empty()
    } else if ways.contains_key(ids.last()) {
        shapes_of(nodes, ways, ids.drop_last()).push(
            WayShapeView {
                way_id: ids.last(),
                render_feature: ways[ids.last()].render_feature,
                layer: ways[ids.last()].layer,
                points: present_points(nodes, ways[ids.last()].node_refs),
            },
        )
    } else {
        shapes_of(nodes, ways, ids.drop_last())
    }
}

/// Gathers the shapes of ways: for each way that is there, the positions of
/// its nodes that are present.
pub fn collect_ways_geometry(store: &OsmStore, way_ids: &[i64]) -> (shapes: Vec<WayShape>)
    requires
        store@.keyed(),
    ensures
        shapes_view(shapes@) == shapes_of(store@.nodes, store@.ways, way_ids@),
{
    let mut shapes: Vec<WayShape> = Vec::new();
    let mut i: usize = 0;
    while i < way_ids.len()
        invariant
            i <= way_ids.len(),
            store@.keyed(),
            shapes_view(shapes@) == shapes_of(store@.nodes, store@.ways, way_ids@.take(i as int)),
        decreases way_ids.len() - i,
    {
        proof {
            lemma_take_step(way_ids@, i as int);
        }
        let way_id = way_ids[i];
        match store.way(way_id) {
            Some(way) => {
                let points = collect_points(store, &way.node_refs);
                let shape = WayShape {
                    way_id,
                    render_feature: way.render_feature,
                    layer: way.layer,
                    points,
                };
                shapes.push(shape);
            },
            None => {},
        }
        i += 1;
    }
    assert(way_ids@.take(way_ids.len() as int) =~= way_ids@);
    shapes
}

} // verus!
