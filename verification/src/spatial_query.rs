//! Viewport selection: what is shown at a zoom level, in which order and up
//! to which number; the tiles of a viewport; and the choice of the feature
//! under a click.

use crate::osm_store::{
    entry_ids, node_views, present_nodes, NodeView, OsmNode, OsmStore, StoreView, WayView,
};
use crate::polygon_assembler::{
    assemble_from_closed_way, polygon_of_way, polygons_view, AssembledPolygon, PolygonView,
};
use crate::seq_facts::lemma_take_step;
use crate::spatial_index::{QueryBox, SpatialEntry};
use crate::stable_order::{arranged, is_stable_order, is_stably_sorted, stable_order};
use vstd::prelude::*;

verus! {

/// A node with the number of way references to it.
#[derive(Debug, Clone, Copy, PartialEq, Eq, Structural)]
pub struct NodeWithPriority {
    pub id: i64,
    pub lon: i32,
    pub lat: i32,
    pub ref_count: u16,
}

/// A viewport: a box in units of 1e-7 degree, and the whole part of the zoom.
#[derive(Debug, Clone, Copy, PartialEq, Eq, Structural)]
pub struct Viewport {
    pub min_lon: i32,
    pub min_lat: i32,
    pub max_lon: i32,
    pub max_lat: i32,
    pub zoom: u32,
}

impl Viewport {
    /// The area of the box, in units of 1e-14 square degree.
    pub fn area(&self) -> (area: i128)
        ensures
            area == (self.max_lon - self.min_lon) * (self.max_lat - self.min_lat),
    {
        let width: i128 = self.max_lon as i128 - self.min_lon as i128;
        let height: i128 = self.max_lat as i128 - self.min_lat as i128;
        assert(-0x1_0000_0000 <= width <= 0x1_0000_0000 && -0x1_0000_0000 <= height
            <= 0x1_0000_0000 ==> -0x1_0000_0000_0000_0000 <= width * height
            <= 0x1_0000_0000_0000_0000) by (nonlinear_arith);
        width * height
    }

    /// Whether small features are left out: below zoom 14.
    pub fn needs_simplification(&self) -> (needed: bool)
        ensures
            needed == (self.zoom < 14),
    {
        self.zoom < 14
    }

    /// The size below which a feature is not shown, in units of 1e-7 degree.
    pub fn min_feature_size_deg(&self) -> (size: i32)
        ensures
            size == (if self.zoom <= 10 {
                100_000i32
            } else if self.zoom <= 13 {
                10_000i32
            } else if self.zoom <= 16 {
                1_000i32
            } else {
                0i32
            }),
    {
        if self.zoom <= 10 {
            100_000
        } else if self.zoom <= 13 {
            10_000
        } else if self.zoom <= 16 {
            1_000
        } else {
            0
        }
    }
}

/// What a viewport query selects.
#[derive(Debug)]
pub struct ViewportQueryResult {
    pub nodes: Vec<NodeWithPriority>,
    /// The ways to be drawn as lines.
    pub way_ids: Vec<i64>,
    pub polygons: Vec<AssembledPolygon>,
    pub truncated: bool,
}

/// The mathematical value of a query result.
pub struct ViewportResultView {
    pub nodes: Seq<NodeWithPriority>,
    pub way_ids: Seq<i64>,
    pub polygons: Seq<PolygonView>,
    pub truncated: bool,
}

impl View for ViewportQueryResult {
    type V = ViewportResultView;

    open spec fn view(&self) -> ViewportResultView {
        ViewportResultView {
            nodes: self.nodes@,
            way_ids: self.way_ids@,
            polygons: polygons_view(self.polygons@),
            truncated: self.truncated,
        }
    }
}

/// The most nodes and the most ways that are handed out at a zoom level.
pub open spec fn render_limits(zoom: u32) -> (usize, usize) {
    if zoom <= 8 {
        (10_000, 5_000)
    } else if zoom <= 11 {
        (30_000, 15_000)
    } else if zoom <= 14 {
        (80_000, 40_000)
    } else if zoom <= 17 {
        (150_000, 80_000)
    } else if zoom <= 21 {
        (300_000, 150_000)
    } else if zoom <= 24 {
        (500_000, 250_000)
    } else {
        (800_000, 400_000)
    }
}

/// The limits of a zoom level.
pub fn get_render_limits(zoom: u32) -> (limits: (usize, usize))
    ensures
        limits == render_limits(zoom),
{
    if zoom <= 8 {
        (10_000, 5_000)
    } else if zoom <= 11 {
        (30_000, 15_000)
    } else if zoom <= 14 {
        (80_000, 40_000)
    } else if zoom <= 17 {
        (150_000, 80_000)
    } else if zoom <= 21 {
        (300_000, 150_000)
    } else if zoom <= 24 {
        (500_000, 250_000)
    } else {
        (800_000, 400_000)
    }
}

/// Which nodes are shown at a zoom level.
#[derive(Debug, Clone, Copy, PartialEq, Eq, Structural)]
pub struct NodeLodConfig {
    pub show_nodes: bool,
    /// 0 shows every node, 2 shows junctions only.
    pub min_ref_count: u16,
    pub max_nodes: usize,
}

/// No nodes below zoom 18; junctions at 18 and 19; every node from 20 on.
pub open spec fn node_lod(zoom: u32) -> NodeLodConfig {
    if zoom <= 17 {
        NodeLodConfig { show_nodes: false, min_ref_count: 0, max_nodes: 0 }
    } else if zoom <= 19 {
        NodeLodConfig { show_nodes: true, min_ref_count: 2, max_nodes: 50_000 }
    } else if zoom <= 21 {
        NodeLodConfig { show_nodes: true, min_ref_count: 0, max_nodes: 100_000 }
    } else {
        NodeLodConfig { show_nodes: true, min_ref_count: 0, max_nodes: 300_000 }
    }
}

/// The node selection of a zoom level.
pub fn get_node_lod_config(zoom: u32) -> (config: NodeLodConfig)
    ensures
        config == node_lod(zoom),
{
    if zoom <= 17 {
        NodeLodConfig { show_nodes: false, min_ref_count: 0, max_nodes: 0 }
    } else if zoom <= 19 {
        NodeLodConfig { show_nodes: true, min_ref_count: 2, max_nodes: 50_000 }
    } else if zoom <= 21 {
        NodeLodConfig { show_nodes: true, min_ref_count: 0, max_nodes: 100_000 }
    } else {
        NodeLodConfig { show_nodes: true, min_ref_count: 0, max_nodes: 300_000 }
    }
}

/// The nodes with at least `least` references, each with its count, in order.
pub open spec fn with_priority(counts: Map<i64, u16>, nodes: Seq<NodeView>, least: u16) -> Seq<
    NodeWithPriority,
>
    decreases nodes.len(),
{
    if nodes.len() == 0 {
        Seq::empty()
    } else if counts[nodes.last().id] >= least {
        with_priority(counts, nodes.drop_last(), least).push(
            NodeWithPriority {
                id: nodes.last().id,
                lon: nodes.last().lon,
                lat: nodes.last().lat,
                ref_count: counts[nodes.last().id],
            },
        )
    } else {
        with_priority(counts, nodes.drop_last(), least)
    }
}

/// The key by which nodes are ordered: the more references, the lower.
pub open spec fn priority_keys(nodes: Seq<NodeWithPriority>) -> Seq<i32> {
    Seq::new(nodes.len(), |i: int| (65535 - nodes[i].ref_count) as i32)
}

/// At most the first `most` elements.
pub open spec fn capped<T>(s: Seq<T>, most: usize) -> Seq<T> {
    if s.len() > most {
        s.take(most as int)
    } else {
        s
    }
}

/// The ways of a list that are there and are drawn as lines, in order.
pub open spec fn line_ways(ways: Map<i64, WayView>, ids: Seq<i64>) -> Seq<i64>
    decreases ids.len(),
{
    if ids.len() == 0 {
        Seq::empty()
    } else if ways.contains_key(ids.last()) && !ways[ids.last()].is_area {
        line_ways(ways, ids.drop_last()).push(ids.last())
    } else {
        line_ways(ways, ids.drop_last())
    }
}

/// The polygons of the ways of a list that are there and are areas, in
/// order; an area that gives no polygon is passed over.
pub open spec fn area_polygons(
    nodes: Map<i64, NodeView>,
    ways: Map<i64, WayView>,
    ids: Seq<i64>,
) -> Seq<PolygonView>
    decreases ids.len(),
{
    if ids.len() == 0 {
        Seq::empty()
    } else if ways.contains_key(ids.last()) && ways[ids.last()].is_area && polygon_of_way(
        nodes,
        ways,
        ids.last(),
    ) is Some {
        area_polygons(nodes, ways, ids.drop_last()).push(
            polygon_of_way(nodes, ways, ids.last())->0,
        )
    } else {
        area_polygons(nodes, ways, ids.drop_last())
    }
}

/// The nodes that are drawn as candidates of a zoom level: those with enough
/// references, where nodes are shown at all.
pub open spec fn node_candidates(store: StoreView, raw_nodes: Seq<NodeView>, zoom: u32) -> Seq<
    NodeWithPriority,
> {
    if node_lod(zoom).show_nodes {
        with_priority(store.ref_counts, raw_nodes, node_lod(zoom).min_ref_count)
    } else {
        Seq::empty()
    }
}

/// Whether `shown` holds the candidates, most referenced first and
/// otherwise in the order given, up to `most` of them.
pub open spec fn shows_nodes(
    candidates: Seq<NodeWithPriority>,
    most: usize,
    shown: Seq<NodeWithPriority>,
) -> bool {
    exists|sorted: Seq<NodeWithPriority>| #[trigger]
        is_stably_sorted(candidates, priority_keys(candidates), sorted) && shown == capped(
            sorted,
            most,
        )
}

/// Whether `result` is what a viewport at `zoom` shows of the nodes and
/// ways that the indices handed out: the nodes with enough references, most
/// referenced first and otherwise in the order given, up to the most nodes
/// of the zoom level; the ways up to the most ways, parted into lines and
/// polygons; and the mark that something was cut off.
pub open spec fn selects(
    store: StoreView,
    raw_nodes: Seq<NodeView>,
    raw_way_ids: Seq<i64>,
    zoom: u32,
    result: ViewportResultView,
) -> bool {
    let lod = node_lod(zoom);
    let most_ways = render_limits(zoom).1;
    let candidates = node_candidates(store, raw_nodes, zoom);
    let kept = capped(raw_way_ids, most_ways);
    &&& shows_nodes(candidates, lod.max_nodes, result.nodes)
    &&& result.way_ids == line_ways(store.ways, kept)
    &&& result.polygons == area_polygons(store.nodes, store.ways, kept)
    &&& result.truncated == (candidates.len() > lod.max_nodes || raw_way_ids.len() > most_ways)
}

fn prioritize(store: &OsmStore, raw_nodes: &Vec<OsmNode>, least: u16) -> (candidates: Vec<
    NodeWithPriority,
>)
    ensures
        candidates@ == with_priority(store@.ref_counts, node_views(raw_nodes@), least),
{
    let ghost all = node_views(raw_nodes@);
    let mut candidates: Vec<NodeWithPriority> = Vec::new();
    let mut i: usize = 0;
    while i < raw_nodes.len()
        invariant
            i <= raw_nodes.len(),
            all == node_views(raw_nodes@),
            candidates@ == with_priority(store@.ref_counts, all.take(i as int), least),
        decreases raw_nodes.len() - i,
    {
        proof {
            lemma_take_step(all, i as int);
        }
        let node = &raw_nodes[i];
        let ref_count = store.ref_count(node.id);
        if ref_count >= least {
            candidates.push(NodeWithPriority { id: node.id, lon: node.lon, lat: node.lat, ref_count });
        }
        i += 1;
    }
    assert(all.take(raw_nodes.len() as int) =~= all);
    candidates
}

fn sort_by_priority(candidates: &Vec<NodeWithPriority>) -> (sorted: Vec<NodeWithPriority>)
    ensures
        is_stably_sorted(candidates@, priority_keys(candidates@), sorted@),
{
    let mut keys: Vec<i32> = Vec::new();
    let mut i: usize = 0;
    while i < candidates.len()
        invariant
            i <= candidates.len(),
            keys.len() == i,
            forall|k: int| 0 <= k < i ==> keys@[k] == (65535 - candidates@[k].ref_count) as i32,
        decreases candidates.len() - i,
    {
        keys.push(65535 - candidates[i].ref_count as i32);
        i += 1;
    }
    assert(keys@ =~= priority_keys(candidates@));
    let order = stable_order(&keys);
    let mut sorted: Vec<NodeWithPriority> = Vec::new();
    let mut j: usize = 0;
    while j < order.len()
        invariant
            j <= order.len(),
            sorted.len() == j,
            is_stable_order(keys@, order@),
            keys.len() == candidates.len(),
            forall|k: int| 0 <= k < j ==> sorted@[k] == candidates@[order@[k] as int],
        decreases order.len() - j,
    {
        sorted.push(candidates[order[j]]);
        j += 1;
    }
    assert(sorted@ =~= arranged(candidates@, order@));
    sorted
}

/// Selects what a viewport shows of the nodes and ways that the indices
/// handed out.
#[verifier::loop_isolation(false)]
pub fn select_viewport(
    store: &OsmStore,
    raw_nodes: &Vec<OsmNode>,
    raw_way_ids: Vec<i64>,
    zoom: u32,
) -> (result: ViewportQueryResult)
    requires
        store@.keyed(),
    ensures
        selects(store@, node_views(raw_nodes@), raw_way_ids@, zoom, result@),
{
    let limits = get_render_limits(zoom);
    let max_ways = limits.1;
    let lod = get_node_lod_config(zoom);
    let mut truncated = false;
    let mut nodes: Vec<NodeWithPriority> = if lod.show_nodes {
        let candidates = prioritize(store, raw_nodes, lod.min_ref_count);
        sort_by_priority(&candidates)
    } else {
        let empty: Vec<NodeWithPriority> = Vec::new();
        proof {
            let none = Seq::<NodeWithPriority>::empty();
            assert(is_stable_order(priority_keys(none), Seq::<usize>::empty()));
            assert(empty@ =~= arranged(none, Seq::<usize>::empty()));
        }
        empty
    };
    let ghost candidates = node_candidates(store@, node_views(raw_nodes@), zoom);
    let ghost sorted = nodes@;
    assert(is_stably_sorted(candidates, priority_keys(candidates), sorted));
    if nodes.len() > lod.max_nodes {
        nodes.truncate(lod.max_nodes);
        truncated = true;
    }
    let mut way_ids = raw_way_ids;
    if way_ids.len() > max_ways {
        way_ids.truncate(max_ways);
        truncated = true;
    }
    let mut line_way_ids: Vec<i64> = Vec::new();
    let mut polygons: Vec<AssembledPolygon> = Vec::new();
    let mut i: usize = 0;
    while i < way_ids.len()
        invariant
            i <= way_ids.len(),
            store@.keyed(),
            line_way_ids@ == line_ways(store@.ways, way_ids@.take(i as int)),
            polygons_view(polygons@) == area_polygons(
                store@.nodes,
                store@.ways,
                way_ids@.take(i as int),
            ),
        decreases way_ids.len() - i,
    {
        proof {
            lemma_take_step(way_ids@, i as int);
        }
        let way_id = way_ids[i];
        match store.way(way_id) {
            Some(way) => {
                if way.is_area {
                    match assemble_from_closed_way(store, way_id) {
                        Some(polygon) => {
                            polygons.push(polygon);
                        },
                        None => {},
                    }
                } else {
                    line_way_ids.push(way_id);
                }
            },
            None => {},
        }
        i += 1;
    }
    assert(way_ids@.take(way_ids.len() as int) =~= way_ids@);
    let result = ViewportQueryResult { nodes, way_ids: line_way_ids, polygons, truncated };
    result
}

/// Answers a viewport query: asks the indices for what touches the box, and
/// selects from it for the zoom level. Below the zoom at which nodes are
/// shown the node index is not asked.
pub fn query_viewport(store: &OsmStore, viewport: &Viewport) -> (result: ViewportQueryResult)
    requires
        store@.keyed(),
    ensures
        exists|node_hits: Seq<SpatialEntry>, way_hits: Seq<SpatialEntry>|
            #![trigger present_nodes(store@.nodes, node_hits), entry_ids(way_hits)]
            {
                let query = QueryBox {
                    lon_a: viewport.min_lon,
                    lat_a: viewport.min_lat,
                    lon_b: viewport.max_lon,
                    lat_b: viewport.max_lat,
                };
                &&& node_lod(viewport.zoom).show_nodes ==> node_hits.to_multiset()
                    == store@.node_index.filter(|e: SpatialEntry| query.touches(e))
                &&& way_hits.to_multiset() == store@.way_index.filter(
                    |e: SpatialEntry| query.touches(e),
                )
                &&& selects(
                    store@,
                    present_nodes(store@.nodes, node_hits),
                    entry_ids(way_hits),
                    viewport.zoom,
                    result@,
                )
            },
{
    let lod = get_node_lod_config(viewport.zoom);
    let raw_nodes: Vec<OsmNode> = if lod.show_nodes {
        store.query_nodes_in_viewport(
            viewport.min_lon,
            viewport.min_lat,
            viewport.max_lon,
            viewport.max_lat,
        )
    } else {
        Vec::new()
    };
    let raw_way_ids = store.query_way_ids_in_viewport(
        viewport.min_lon,
        viewport.min_lat,
        viewport.max_lon,
        viewport.max_lat,
    );
    let ghost query = QueryBox {
        lon_a: viewport.min_lon,
        lat_a: viewport.min_lat,
        lon_b: viewport.max_lon,
        lat_b: viewport.max_lat,
    };
    let ghost node_hits = if lod.show_nodes {
        choose|hits: Seq<SpatialEntry>|
            #![trigger present_nodes(store@.nodes, hits)]
            hits.to_multiset() == store@.node_index.filter(|e: SpatialEntry| query.touches(e))
                && node_views(raw_nodes@) == present_nodes(store@.nodes, hits)
    } else {
        Seq::<SpatialEntry>::empty()
    };
    let result = select_viewport(store, &raw_nodes, raw_way_ids, viewport.zoom);
    proof {
        if !lod.show_nodes {
            assert(node_views(raw_nodes@) =~= present_nodes(store@.nodes, node_hits));
        }
    }
    result
}

/// A tile of the map grid.
#[derive(Debug, Clone, Copy, PartialEq, Eq, Hash, Structural)]
pub struct TileCoord {
    pub x: u32,
    pub y: u32,
    pub z: u8,
}

/// The zoom level of the tile grid for a zoom: at most 19.
pub fn tile_zoom(zoom: u32) -> (z: u8)
    ensures
        z == (if zoom > 19 { 19u32 } else { zoom }),
{
    if zoom > 19 {
        19
    } else {
        zoom as u8
    }
}

/// The tiles of one column, from `top` down to `bottom`.
pub open spec fn tile_column(x: u32, top: u32, bottom: u32, z: u8) -> Seq<TileCoord> {
    if top > bottom {
        Seq::empty()
    } else {
        Seq::new((bottom - top + 1) as nat, |i: int| TileCoord { x, y: (top + i) as u32, z })
    }
}

/// The tiles of `count` columns from `left` on, column after column.
pub open spec fn tile_columns(left: u32, count: nat, top: u32, bottom: u32, z: u8) -> Seq<
    TileCoord,
>
    decreases count,
{
    if count == 0 {
        Seq::empty()
    } else {
        tile_columns(left, (count - 1) as nat, top, bottom, z) + tile_column(
            (left + count - 1) as u32,
            top,
            bottom,
            z,
        )
    }
}

/// The tiles between two corner tiles, both included, column after column
/// and from top to bottom in each column; none where the corners are the
/// wrong way round.
pub open spec fn tile_grid(top_left: TileCoord, bottom_right: TileCoord) -> Seq<TileCoord> {
    if top_left.x > bottom_right.x {
        Seq::empty()
    } else {
        tile_columns(
            top_left.x,
            (bottom_right.x - top_left.x + 1) as nat,
            top_left.y,
            bottom_right.y,
            top_left.z,
        )
    }
}

/// Lists the tiles that cover a viewport, given the tiles of its corners.
pub fn tiles_in_viewport(top_left: TileCoord, bottom_right: TileCoord) -> (tiles: Vec<TileCoord>)
    ensures
        tiles@ == tile_grid(top_left, bottom_right),
{
    let mut tiles: Vec<TileCoord> = Vec::new();
    if top_left.x > bottom_right.x {
        return tiles;
    }
    let z = top_left.z;
    let columns: u64 = bottom_right.x as u64 - top_left.x as u64 + 1;
    let mut done: u64 = 0;
    while done < columns
        invariant
            done <= columns,
            columns == bottom_right.x - top_left.x + 1,
            top_left.x <= bottom_right.x,
            z == top_left.z,
            tiles@ == tile_columns(top_left.x, done as nat, top_left.y, bottom_right.y, z),
        decreases columns - done,
    {
        let x: u32 = (top_left.x as u64 + done) as u32;
        let ghost before = tiles@;
        let ghost column = tile_column(x, top_left.y, bottom_right.y, z);
        if top_left.y <= bottom_right.y {
            let rows: u64 = bottom_right.y as u64 - top_left.y as u64 + 1;
            let mut row: u64 = 0;
            while row < rows
                invariant
                    row <= rows,
                    rows == bottom_right.y - top_left.y + 1,
                    top_left.y <= bottom_right.y,
                    column == tile_column(x, top_left.y, bottom_right.y, z),
                    tiles@ == before + column.take(row as int),
                decreases rows - row,
            {
                let y: u32 = (top_left.y as u64 + row) as u32;
                tiles.push(TileCoord { x, y, z });
                row += 1;
            }
        }
        done += 1;
    }
    tiles
}

/// What a click picks.
#[derive(Debug, Clone, Copy, PartialEq, Eq, Structural)]
pub enum PickedFeature {
    Node(i64),
    Way(i64),
    /// Nothing lies within the tolerance.
    Nothing,
}

/// A feature with its squared distance from the click. The distance is in
/// the unit in which the tolerance is given.
#[derive(Debug, Clone, Copy, PartialEq, Eq, Structural)]
pub struct PickCandidate {
    pub id: i64,
    pub distance: u64,
}

/// The candidate within the tolerance that is closest; of several at the
/// same distance, the first.
pub open spec fn closest_of(candidates: Seq<PickCandidate>, tolerance: u64) -> Option<
    PickCandidate,
>
    decreases candidates.len(),
{
    if candidates.len() == 0 {
        None
    } else {
        let best = closest_of(candidates.drop_last(), tolerance);
        let c = candidates.last();
        if c.distance <= tolerance && (best is None || c.distance < best->0.distance) {
            Some(c)
        } else {
            best
        }
    }
}

/// `closest_of` gives a candidate within the tolerance than which none is
/// closer, and gives none only where none is within the tolerance.
pub proof fn lemma_closest_is_nearest(candidates: Seq<PickCandidate>, tolerance: u64)
    ensures
        match closest_of(candidates, tolerance) {
            Some(c) => candidates.contains(c) && c.distance <= tolerance && forall|j: int|
                0 <= j < candidates.len() && (#[trigger] candidates[j]).distance <= tolerance
                    ==> c.distance <= candidates[j].distance,
            None => forall|j: int|
                0 <= j < candidates.len() ==> (#[trigger] candidates[j]).distance > tolerance,
        },
    decreases candidates.len(),
{
    if candidates.len() > 0 {
        let rest = candidates.drop_last();
        lemma_closest_is_nearest(rest, tolerance);
        let best = closest_of(rest, tolerance);
        let c = candidates.last();
        assert(candidates[candidates.len() - 1] == c);
        assert forall|j: int| 0 <= j < rest.len() implies rest[j] == candidates[j] by {}
        if let Some(b) = best {
            let k = choose|k: int| 0 <= k < rest.len() && rest[k] == b;
            assert(candidates[k] == b);
        }
        match closest_of(candidates, tolerance) {
            Some(chosen) => {
                assert forall|j: int|
                    0 <= j < candidates.len() && (#[trigger] candidates[j]).distance
                        <= tolerance implies chosen.distance <= candidates[j].distance by {
                    if j < rest.len() {
                        assert(rest[j] == candidates[j]);
                    }
                }
            },
            None => {
                assert forall|j: int| 0 <= j < candidates.len() implies (
                #[trigger] candidates[j]).distance > tolerance by {
                    if j < rest.len() {
                        assert(rest[j] == candidates[j]);
                    }
                }
            },
        }
    }
}

/// Finds the closest candidate within the tolerance.
pub fn closest_within(candidates: &Vec<PickCandidate>, tolerance: u64) -> (chosen: Option<
    PickCandidate,
>)
    ensures
        chosen == closest_of(candidates@, tolerance),
{
    let mut best: Option<PickCandidate> = None;
    let mut i: usize = 0;
    while i < candidates.len()
        invariant
            i <= candidates.len(),
            best == closest_of(candidates@.take(i as int), tolerance),
        decreases candidates.len() - i,
    {
        proof {
            lemma_take_step(candidates@, i as int);
        }
        let c = candidates[i];
        let better = match best {
            Some(b) => c.distance < b.distance,
            None => true,
        };
        if c.distance <= tolerance && better {
            best = Some(c);
        }
        i += 1;
    }
    assert(candidates@.take(candidates.len() as int) =~= candidates@);
    best
}

/// What a click picks: the closest node within the tolerance; where there
/// is none, the closest way within the tolerance; else nothing.
pub open spec fn picked(
    nodes: Seq<PickCandidate>,
    ways: Seq<PickCandidate>,
    tolerance: u64,
) -> PickedFeature {
    match closest_of(nodes, tolerance) {
        Some(n) => PickedFeature::Node(n.id),
        None => match closest_of(ways, tolerance) {
            Some(w) => PickedFeature::Way(w.id),
            None => PickedFeature::Nothing,
        },
    }
}

/// Chooses the feature under a click from the candidates and their distances.
pub fn pick_feature(nodes: &Vec<PickCandidate>, ways: &Vec<PickCandidate>, tolerance: u64) -> (feature:
    PickedFeature)
    ensures
        feature == picked(nodes@, ways@, tolerance),
{
    match closest_within(nodes, tolerance) {
        Some(n) => PickedFeature::Node(n.id),
        None => match closest_within(ways, tolerance) {
            Some(w) => PickedFeature::Way(w.id),
            None => PickedFeature::Nothing,
        },
    }
}

/// Whether a node with this many references can be picked at a zoom level:
/// a junction from zoom 18 on, any other node from zoom 20 on.
pub open spec fn is_pickable(ref_count: u16, zoom: u32) -> bool {
    if ref_count >= 2 {
        zoom >= 18
    } else {
        zoom >= 20
    }
}

/// The nodes of the entries that are there and can be picked, in order.
pub open spec fn pickable_nodes(store: StoreView, hits: Seq<SpatialEntry>, zoom: u32) -> Seq<
    NodeWithPriority,
>
    decreases hits.len(),
{
    if hits.len() == 0 {
        Seq::empty()
    } else {
        let id = hits.last().id;
        let rest = pickable_nodes(store, hits.drop_last(), zoom);
        if store.nodes.contains_key(id) && is_pickable(store.ref_counts[id], zoom) {
            rest.push(
                NodeWithPriority {
                    id,
                    lon: store.nodes[id].lon,
                    lat: store.nodes[id].lat,
                    ref_count: store.ref_counts[id],
                },
            )
        } else {
            rest
        }
    }
}

/// The nodes inside a box that can be picked at a zoom level, in the order
/// in which the index hands its entries out.
pub fn pick_node_candidates(
    store: &OsmStore,
    min_lon: i32,
    min_lat: i32,
    max_lon: i32,
    max_lat: i32,
    zoom: u32,
) -> (nodes: Vec<NodeWithPriority>)
    ensures
        exists|hits: Seq<SpatialEntry>|
            #![trigger pickable_nodes(store@, hits, zoom)]
            hits.to_multiset() == store@.node_index.filter(
                |e: SpatialEntry|
                    (QueryBox { lon_a: min_lon, lat_a: min_lat, lon_b: max_lon, lat_b: max_lat })
                        .holds(e),
            ) && nodes@ == pickable_nodes(store@, hits, zoom),
{
    let hits = store.node_entries_inside(min_lon, min_lat, max_lon, max_lat);
    let mut nodes: Vec<NodeWithPriority> = Vec::new();
    let mut i: usize = 0;
    while i < hits.len()
        invariant
            i <= hits.len(),
            nodes@ == pickable_nodes(store@, hits@.take(i as int), zoom),
        decreases hits.len() - i,
    {
        proof {
            lemma_take_step(hits@, i as int);
        }
        let id = hits[i].id;
        match store.node_position(id) {
            Some((lon, lat)) => {
                let ref_count = store.ref_count(id);
                let visible = if ref_count >= 2 { zoom >= 18 } else { zoom >= 20 };
                if visible {
                    nodes.push(NodeWithPriority { id, lon, lat, ref_count });
                }
            },
            None => {},
        }
        i += 1;
    }
    assert(hits@.take(hits.len() as int) =~= hits@);
    nodes
}

/// A way with those of its segments whose two ends are present.
#[derive(Debug, Clone)]
pub struct WaySegments {
    pub way_id: i64,
    /// Each segment as `(lon, lat)` of its start, then of its end.
    pub segments: Vec<((i32, i32), (i32, i32))>,
}

/// The mathematical value of a way with its segments.
pub struct WaySegmentsView {
    pub way_id: i64,
    pub segments: Seq<((i32, i32), (i32, i32))>,
}

impl View for WaySegments {
    type V = WaySegmentsView;

    open spec fn view(&self) -> WaySegmentsView {
        WaySegmentsView { way_id: self.way_id, segments: self.segments@ }
    }
}

/// The mathematical values of a list of ways with their segments.
pub open spec fn way_segments_view(ways: Seq<WaySegments>) -> Seq<WaySegmentsView> {
    Seq::new(ways.len(), |i: int| ways[i]@)
}

/// The first `count` segments of a list of node references, those left out
/// of which an end is missing.
pub open spec fn present_segments(nodes: Map<i64, NodeView>, refs: Seq<i64>, count: nat) -> Seq<
    ((i32, i32), (i32, i32)),
>
    decreases count,
{
    if count == 0 || count >= refs.len() {
        Seq::empty()
    } else {
        let rest = present_segments(nodes, refs, (count - 1) as nat);
        let a = refs[count - 1];
        let b = refs[count as int];
        if nodes.contains_key(a) && nodes.contains_key(b) {
            rest.push(((nodes[a].lon, nodes[a].lat), (nodes[b].lon, nodes[b].lat)))
        } else {
            rest
        }
    }
}

/// The ways of the entries that are there and have at least two node
/// references, each with its present segments, in order.
pub open spec fn ways_with_segments(store: StoreView, hits: Seq<SpatialEntry>) -> Seq<
    WaySegmentsView,
>
    decreases hits.len(),
{
    if hits.len() == 0 {
        Seq::empty()
    } else {
        let id = hits.last().id;
        let rest = ways_with_segments(store, hits.drop_last());
        if store.ways.contains_key(id) && store.ways[id].node_refs.len() >= 2 {
            rest.push(
                WaySegmentsView {
                    way_id: id,
                    segments: present_segments(
                        store.nodes,
                        store.ways[id].node_refs,
                        (store.ways[id].node_refs.len() - 1) as nat,
                    ),
                },
            )
        } else {
            rest
        }
    }
}

fn segments_of_way(store: &OsmStore, refs: &Vec<i64>) -> (segments: Vec<((i32, i32), (i32, i32))>)
    requires
        refs.len() >= 2,
    ensures
        segments@ == present_segments(store@.nodes, refs@, (refs.len() - 1) as nat),
{
    let mut segments: Vec<((i32, i32), (i32, i32))> = Vec::new();
    let mut i: usize = 0;
    while i < refs.len() - 1
        invariant
            i <= refs.len() - 1,
            refs.len() >= 2,
            segments@ == present_segments(store@.nodes, refs@, i as nat),
        decreases refs.len() - 1 - i,
    {
        let a = store.node_position(refs[i]);
        let b = store.node_position(refs[i + 1]);
        match (a, b) {
            (Some(start), Some(end)) => {
                segments.push((start, end));
            },
            _ => {},
        }
        i += 1;
    }
    segments
}

/// The ways whose box touches a box, each with its present segments, in the
/// order in which the index hands its entries out.
pub fn pick_way_candidates(
    store: &OsmStore,
    min_lon: i32,
    min_lat: i32,
    max_lon: i32,
    max_lat: i32,
) -> (ways: Vec<WaySegments>)
    requires
        store@.keyed(),
    ensures
        exists|hits: Seq<SpatialEntry>|
            #![trigger ways_with_segments(store@, hits)]
            hits.to_multiset() == store@.way_index.filter(
                |e: SpatialEntry|
                    (QueryBox { lon_a: min_lon, lat_a: min_lat, lon_b: max_lon, lat_b: max_lat })
                        .touches(e),
            ) && way_segments_view(ways@) == ways_with_segments(store@, hits),
{
    let hits = store.way_entries_touching(min_lon, min_lat, max_lon, max_lat);
    let mut ways: Vec<WaySegments> = Vec::new();
    let mut i: usize = 0;
    while i < hits.len()
        invariant
            i <= hits.len(),
            store@.keyed(),
            way_segments_view(ways@) == ways_with_segments(store@, hits@.take(i as int)),
        decreases hits.len() - i,
    {
        proof {
            lemma_take_step(hits@, i as int);
        }
        let id = hits[i].id;
        match store.way(id) {
            Some(way) => {
                if way.node_refs.len() >= 2 {
                    let segments = segments_of_way(store, &way.node_refs);
                    let item = WaySegments { way_id: id, segments };
                    ways.push(item);
                }
            },
            None => {},
        }
        i += 1;
    }
    assert(hits@.take(hits.len() as int) =~= hits@);
    ways
}

} // verus!
