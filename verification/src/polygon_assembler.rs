//! Polygon assembly: closed ways become simple polygons, and the member ways
//! of a multipolygon relation are stitched end to end into closed rings.
//!
//! Ring points are geographic positions, `(lon, lat)` in units of 1e-7 degree.

use crate::endpoint_index::EndpointIndex;
use crate::osm_store::{
    members_view, MemberType, MemberView, NodeView, OsmStore, RelationMember, RelationView,
    WayView,
};
use crate::render_feature::{feature_of_tags, layer_of_tags, parse_tags};
use crate::seq_facts::lemma_take_step;
use crate::tags::{str_eq, tags_view, TagsView};
use vstd::prelude::*;

verus! {

/// A polygon ready to be drawn.
#[derive(Debug, Clone)]
pub struct AssembledPolygon {
    /// The way it was made from; 0 where it was made from a relation.
    pub way_id: i64,
    pub render_feature: u16,
    pub layer: i8,
    /// Outer rings first, then inner rings; each a list of `(lon, lat)`.
    pub rings: Vec<Vec<(i32, i32)>>,
}

/// The mathematical value of a polygon.
pub struct PolygonView {
    pub way_id: i64,
    pub render_feature: u16,
    pub layer: i8,
    pub rings: Seq<Seq<(i32, i32)>>,
}

impl View for AssembledPolygon {
    type V = PolygonView;

    open spec fn view(&self) -> PolygonView {
        PolygonView {
            way_id: self.way_id,
            render_feature: self.render_feature,
            layer: self.layer,
            rings: rings_view(self.rings@),
        }
    }
}

/// The mathematical values of a list of polygons.
pub open spec fn polygons_view(polygons: Seq<AssembledPolygon>) -> Seq<PolygonView> {
    Seq::new(polygons.len(), |i: int| polygons[i]@)
}

/// The mathematical value of a list of rings.
pub open spec fn rings_view(rings: Seq<Vec<(i32, i32)>>) -> Seq<Seq<(i32, i32)>> {
    Seq::new(rings.len(), |i: int| rings[i]@)
}

/// The mathematical value of a list of lists of identifiers.
pub open spec fn lists_view(lists: Seq<Vec<i64>>) -> Seq<Seq<i64>> {
    Seq::new(lists.len(), |i: int| lists[i]@)
}

/// Whether one tag implies closed geometry.
pub open spec fn tag_implies_area(key: Seq<char>, value: Seq<char>) -> bool {
    ||| key == "area"@ && value == "yes"@
    ||| (key == "building"@ || key == "landuse"@ || key == "leisure"@ || key == "amenity"@ || key
        == "shop"@ || key == "tourism"@ || key == "man_made"@) && value != "no"@
    ||| key == "natural"@ && value != "no"@ && value != "coastline"@ && value != "tree_row"@
    ||| key == "waterway"@ && (value == "riverbank"@ || value == "dock"@ || value == "boatyard"@)
}

/// Whether some tag of the list implies closed geometry.
pub open spec fn tags_imply_area(tags: TagsView) -> bool {
    exists|i: int| 0 <= i < tags.len() && tag_implies_area(#[trigger] tags[i].0, tags[i].1)
}

/// Whether a list of node references closes on itself: at least four
/// references, the first equal to the last.
pub open spec fn is_closed(refs: Seq<i64>) -> bool {
    refs.len() >= 4 && refs.first() == refs.last()
}

/// Whether a way is an area: closed, with a tag that implies closed geometry.
pub open spec fn is_area(tags: TagsView, refs: Seq<i64>) -> bool {
    is_closed(refs) && tags_imply_area(tags)
}

fn tag_is_area(key: &str, value: &str) -> (implied: bool)
    ensures
        implied == tag_implies_area(key@, value@),
{
    if str_eq(key, "area") && str_eq(value, "yes") {
        return true;
    }
    if (str_eq(key, "building") || str_eq(key, "landuse") || str_eq(key, "leisure") || str_eq(
        key,
        "amenity",
    ) || str_eq(key, "shop") || str_eq(key, "tourism") || str_eq(key, "man_made")) && !str_eq(
        value,
        "no",
    ) {
        return true;
    }
    if str_eq(key, "natural") && !str_eq(value, "no") && !str_eq(value, "coastline") && !str_eq(
        value,
        "tree_row",
    ) {
        return true;
    }
    str_eq(key, "waterway") && (str_eq(value, "riverbank") || str_eq(value, "dock") || str_eq(
        value,
        "boatyard",
    ))
}

/// Decides whether a way is to be drawn as an area.
pub fn is_area_way(tags: &[(String, String)], node_refs: &[i64]) -> (area: bool)
    ensures
        area == is_area(tags_view(tags@), node_refs@),
{
    if node_refs.len() < 4 {
        return false;
    }
    if node_refs[0] != node_refs[node_refs.len() - 1] {
        return false;
    }
    let ghost all = tags_view(tags@);
    let mut i: usize = 0;
    while i < tags.len()
        invariant
            i <= tags.len(),
            all == tags_view(tags@),
            is_closed(node_refs@),
            forall|j: int| 0 <= j < i ==> !tag_implies_area(#[trigger] all[j].0, all[j].1),
        decreases tags.len() - i,
    {
        if tag_is_area(tags[i].0.as_str(), tags[i].1.as_str()) {
            assert(tag_implies_area(all[i as int].0, all[i as int].1));
            return true;
        }
        i += 1;
    }
    false
}

/// The positions of those nodes of `refs` that `nodes` holds, in order.
pub open spec fn present_points(nodes: Map<i64, NodeView>, refs: Seq<i64>) -> Seq<(i32, i32)>
    decreases refs.len(),
{
    if refs.len() == 0 {
        Seq::empty()
    } else if nodes.contains_key(refs.last()) {
        present_points(nodes, refs.drop_last()).push(
            (nodes[refs.last()].lon, nodes[refs.last()].lat),
        )
    } else {
        present_points(nodes, refs.drop_last())
    }
}

/// Collects the positions of the nodes that the store holds.
pub fn collect_points(store: &OsmStore, refs: &Vec<i64>) -> (points: Vec<(i32, i32)>)
    ensures
        points@ == present_points(store@.nodes, refs@),
{
    let mut points: Vec<(i32, i32)> = Vec::new();
    let mut i: usize = 0;
    while i < refs.len()
        invariant
            i <= refs.len(),
            points@ == present_points(store@.nodes, refs@.take(i as int)),
        decreases refs.len() - i,
    {
        proof {
            lemma_take_step(refs@, i as int);
        }
        match store.node_position(refs[i]) {
            Some(p) => {
                points.push(p);
            },
            None => {},
        }
        i += 1;
    }
    assert(refs@.take(refs.len() as int) =~= refs@);
    points
}

/// The polygon of a closed way: one ring of the positions of its nodes that
/// are present. None where the way is missing, is not closed, or has fewer
/// than four nodes present.
pub open spec fn polygon_of_way(
    nodes: Map<i64, NodeView>,
    ways: Map<i64, WayView>,
    way_id: i64,
) -> Option<PolygonView> {
    if ways.contains_key(way_id) && is_closed(ways[way_id].node_refs) && present_points(
        nodes,
        ways[way_id].node_refs,
    ).len() >= 4 {
        Some(
            PolygonView {
                way_id,
                render_feature: ways[way_id].render_feature,
                layer: ways[way_id].layer,
                rings: seq![present_points(nodes, ways[way_id].node_refs)],
            },
        )
    } else {
        None
    }
}

/// Makes the simple polygon of a closed way.
pub fn assemble_from_closed_way(store: &OsmStore, way_id: i64) -> (polygon: Option<
    AssembledPolygon,
>)
    requires
        store@.keyed(),
    ensures
        polygon is Some == polygon_of_way(store@.nodes, store@.ways, way_id) is Some,
        polygon matches Some(p) ==> Some(p@) == polygon_of_way(store@.nodes, store@.ways, way_id),
{
    let way = match store.way(way_id) {
        Some(w) => w,
        None => {
            return None;
        },
    };
    if way.node_refs.len() < 4 {
        return None;
    }
    if way.node_refs[0] != way.node_refs[way.node_refs.len() - 1] {
        return None;
    }
    let points = collect_points(store, &way.node_refs);
    if points.len() < 4 {
        return None;
    }
    let mut rings: Vec<Vec<(i32, i32)>> = Vec::new();
    rings.push(points);
    assert(rings_view(rings@) =~= seq![points@]);
    Some(AssembledPolygon { way_id, render_feature: way.render_feature, layer: way.layer, rings })
}

/// How many segments are still unused.
pub open spec fn unused_count(used: Seq<bool>) -> nat
    decreases used.len(),
{
    if used.len() == 0 {
        0
    } else {
        unused_count(used.drop_last()) + if used.last() {
            0nat
        } else {
            1nat
        }
    }
}

/// Marking an unused segment leaves one unused segment fewer.
pub proof fn lemma_mark_used(used: Seq<bool>, at: int)
    requires
        0 <= at < used.len(),
        !used[at],
    ensures
        unused_count(used.update(at, true)) + 1 == unused_count(used),
    decreases used.len(),
{
    if at == used.len() - 1 {
        assert(used.update(at, true).drop_last() =~= used.drop_last());
    } else {
        assert(used.update(at, true).drop_last() =~= used.drop_last().update(at, true));
        lemma_mark_used(used.drop_last(), at);
    }
}

/// Whether a segment starts or ends at the node.
pub open spec fn ends_at(segment: Seq<i64>, node: i64) -> bool {
    segment.first() == node || segment.last() == node
}

/// The lowest-indexed unused segment, from `from` on, that starts or ends at `tail`.
pub open spec fn next_segment(
    segments: Seq<Seq<i64>>,
    used: Seq<bool>,
    tail: i64,
    from: int,
) -> Option<int>
    decreases segments.len() - from,
{
    if from < 0 || from >= segments.len() {
        None
    } else if !used[from] && ends_at(segments[from], tail) {
        Some(from)
    } else {
        next_segment(segments, used, tail, from + 1)
    }
}

/// What `next_segment` finds is an unused segment that ends at the tail, and
/// no unused segment before it does.
pub proof fn lemma_next_segment(segments: Seq<Seq<i64>>, used: Seq<bool>, tail: i64, from: int)
    requires
        0 <= from,
    ensures
        match next_segment(segments, used, tail, from) {
            Some(i) => from <= i < segments.len() && !used[i] && ends_at(segments[i], tail)
                && forall|j: int| from <= j < i ==> used[j] || !ends_at(#[trigger] segments[j], tail),
            None => forall|j: int|
                from <= j < segments.len() ==> used[j] || !ends_at(#[trigger] segments[j], tail),
        },
    decreases segments.len() - from,
{
    if from < segments.len() && !(!used[from] && ends_at(segments[from], tail)) {
        lemma_next_segment(segments, used, tail, from + 1);
    }
}

/// The nodes that a segment adds to a ring that ends where the segment
/// begins (`forward`) or where it ends: all but the shared one, in the
/// direction of travel.
pub open spec fn continuation(segment: Seq<i64>, forward: bool) -> Seq<i64> {
    if forward {
        segment.skip(1)
    } else {
        segment.reverse().skip(1)
    }
}

/// Follows a ring from its tail: while it is not closed, the lowest-indexed
/// unused segment that starts or ends at the tail is marked used and added,
/// forward if it starts there, reversed otherwise. (The endpoint index finds
/// that segment without a look at the others.) Gives the marks and the
/// ring at the end; the ring is closed unless no segment continued it.
pub open spec fn walk(segments: Seq<Seq<i64>>, used: Seq<bool>, ring: Seq<i64>) -> (
    Seq<bool>,
    Seq<i64>,
)
    decreases unused_count(used),
    when used.len() == segments.len()
{
    if is_closed(ring) || ring.len() == 0 {
        (used, ring)
    } else {
        match next_segment(segments, used, ring.last(), 0) {
            None => (used, ring),
            Some(i) => {
                proof {
                    lemma_next_segment(segments, used, ring.last(), 0);
                    lemma_mark_used(used, i);
                }
                walk(
                    segments,
                    used.update(i, true),
                    ring + continuation(segments[i], segments[i].first() == ring.last()),
                )
            },
        }
    }
}

/// The closed rings found from the seeds `start`, `start + 1`, and so on:
/// each unused seed is marked and followed; a ring that closes is kept, one
/// that does not is dropped with its segments left marked.
pub open spec fn stitch_from(segments: Seq<Seq<i64>>, used: Seq<bool>, start: int) -> Seq<
    Seq<i64>,
>
    decreases segments.len() - start,
{
    if start < 0 || start >= segments.len() {
        Seq::empty()
    } else if used[start] {
        stitch_from(segments, used, start + 1)
    } else {
        let (after, ring) = walk(segments, used.update(start, true), segments[start]);
        let rest = stitch_from(segments, after, start + 1);
        if is_closed(ring) {
            seq![ring] + rest
        } else {
            rest
        }
    }
}

/// The closed rings that the segments stitch to.
pub open spec fn stitched(segments: Seq<Seq<i64>>) -> Seq<Seq<i64>> {
    stitch_from(segments, Seq::new(segments.len(), |i: int| false), 0)
}

fn append_segment(ring: &mut Vec<i64>, segment: &Vec<i64>, forward: bool)
    requires
        segment.len() >= 1,
    ensures
        final(ring)@ == old(ring)@ + continuation(segment@, forward),
{
    let ghost base = ring@;
    let ghost piece = continuation(segment@, forward);
    let count: usize = segment.len() - 1;
    let mut done: usize = 0;
    while done < count
        invariant
            done <= count,
            count == segment.len() - 1,
            piece == continuation(segment@, forward),
            piece.len() == count,
            ring@ == base + piece.take(done as int),
        decreases count - done,
    {
        let node = if forward { segment[done + 1] } else { segment[count - 1 - done] };
        ring.push(node);
        done += 1;
    }
}

fn ring_is_closed(ring: &Vec<i64>) -> (closed: bool)
    ensures
        closed == is_closed(ring@),
{
    ring.len() >= 4 && ring[0] == ring[ring.len() - 1]
}

fn walk_ring(
    segments: &Vec<Vec<i64>>,
    index: &EndpointIndex,
    used: &mut Vec<bool>,
    ring: &mut Vec<i64>,
)
    requires
        index.indexes(lists_view(segments@)),
        old(used).len() == segments.len(),
        old(ring).len() > 0,
        forall|i: int| 0 <= i < segments.len() ==> (#[trigger] segments[i]).len() >= 2,
    ensures
        (final(used)@, final(ring)@) == walk(lists_view(segments@), old(used)@, old(ring)@),
        final(used).len() == segments.len(),
{
    let ghost all = lists_view(segments@);
    let ghost goal = walk(all, used@, ring@);
    loop
        invariant
            used.len() == segments.len(),
            ring.len() > 0,
            all == lists_view(segments@),
            index.indexes(all),
            forall|i: int| 0 <= i < segments.len() ==> (#[trigger] segments[i]).len() >= 2,
            walk(all, used@, ring@) == goal,
        ensures
            (used@, ring@) == goal,
            used.len() == segments.len(),
        decreases unused_count(used@),
    {
        if ring_is_closed(ring) {
            break;
        }
        let tail = ring[ring.len() - 1];
        match index.next_unused(segments, used, tail) {
            None => {
                break;
            },
            Some((i, forward)) => {
                proof {
                    lemma_next_segment(all, used@, tail, 0);
                    lemma_mark_used(used@, i as int);
                }
                used.set(i, true);
                append_segment(ring, &segments[i], forward);
            },
        }
    }
}

/// Stitches segments end to end into closed rings of node identifiers.
pub fn stitch_segments(segments: &Vec<Vec<i64>>) -> (rings: Vec<Vec<i64>>)
    requires
        forall|i: int| 0 <= i < segments.len() ==> (#[trigger] segments[i]).len() >= 2,
    ensures
        lists_view(rings@) == stitched(lists_view(segments@)),
{
    let ghost all = lists_view(segments@);
    let index = EndpointIndex::build(segments);
    let mut used: Vec<bool> = Vec::new();
    let mut k: usize = 0;
    while k < segments.len()
        invariant
            k <= segments.len(),
            used.len() == k,
            forall|j: int| 0 <= j < k ==> !used@[j],
        decreases segments.len() - k,
    {
        used.push(false);
        k += 1;
    }
    assert(used@ =~= Seq::new(all.len(), |i: int| false));
    let mut rings: Vec<Vec<i64>> = Vec::new();
    let mut start: usize = 0;
    while start < segments.len()
        invariant
            start <= segments.len(),
            used.len() == segments.len(),
            all == lists_view(segments@),
            index.indexes(all),
            forall|i: int| 0 <= i < segments.len() ==> (#[trigger] segments[i]).len() >= 2,
            lists_view(rings@) + stitch_from(all, used@, start as int) == stitched(all),
        decreases segments.len() - start,
    {
        if !used[start] {
            used.set(start, true);
            let mut ring = crate::osm_store::clone_ids(&segments[start]);
            walk_ring(segments, &index, &mut used, &mut ring);
            if ring_is_closed(&ring) {
                rings.push(ring);
            }
        }
        start += 1;
    }
    rings
}

/// The segments of a list of ways: the node references of each way that is
/// there and has at least two of them, in the order of the list.
pub open spec fn segments_of(ways: Map<i64, WayView>, ids: Seq<i64>) -> Seq<Seq<i64>>
    decreases ids.len(),
{
    if ids.len() == 0 {
        Seq::empty()
    } else if ways.contains_key(ids.last()) && ways[ids.last()].node_refs.len() >= 2 {
        segments_of(ways, ids.drop_last()).push(ways[ids.last()].node_refs)
    } else {
        segments_of(ways, ids.drop_last())
    }
}

/// The rings of positions of a list of rings of node identifiers: each ring
/// gives the positions of its nodes that are present, and is dropped where
/// fewer than four are.
pub open spec fn rings_of(nodes: Map<i64, NodeView>, rings: Seq<Seq<i64>>) -> Seq<
    Seq<(i32, i32)>,
>
    decreases rings.len(),
{
    if rings.len() == 0 {
        Seq::empty()
    } else if present_points(nodes, rings.last()).len() >= 4 {
        rings_of(nodes, rings.drop_last()).push(present_points(nodes, rings.last()))
    } else {
        rings_of(nodes, rings.drop_last())
    }
}

/// The rings of positions that a list of ways stitches to.
pub open spec fn stitched_rings(
    nodes: Map<i64, NodeView>,
    ways: Map<i64, WayView>,
    ids: Seq<i64>,
) -> Seq<Seq<(i32, i32)>> {
    rings_of(nodes, stitched(segments_of(ways, ids)))
}

/// Stitches the ways of a list into closed rings of positions.
pub fn stitch_ways_to_rings(store: &OsmStore, way_ids: &Vec<i64>) -> (rings: Vec<
    Vec<(i32, i32)>,
>)
    requires
        store@.keyed(),
    ensures
        rings_view(rings@) == stitched_rings(store@.nodes, store@.ways, way_ids@),
{
    let mut segments: Vec<Vec<i64>> = Vec::new();
    let mut i: usize = 0;
    while i < way_ids.len()
        invariant
            i <= way_ids.len(),
            store@.keyed(),
            forall|k: int| 0 <= k < segments.len() ==> (#[trigger] segments[k]).len() >= 2,
            lists_view(segments@) == segments_of(store@.ways, way_ids@.take(i as int)),
        decreases way_ids.len() - i,
    {
        proof {
            lemma_take_step(way_ids@, i as int);
        }
        match store.way(way_ids[i]) {
            Some(way) => {
                if way.node_refs.len() >= 2 {
                    let refs = way.node_refs;
                    segments.push(refs);
                }
            },
            None => {},
        }
        i += 1;
    }
    assert(way_ids@.take(way_ids.len() as int) =~= way_ids@);
    let stitched_ids = stitch_segments(&segments);
    let ghost all = lists_view(stitched_ids@);
    let mut rings: Vec<Vec<(i32, i32)>> = Vec::new();
    let mut j: usize = 0;
    while j < stitched_ids.len()
        invariant
            j <= stitched_ids.len(),
            all == lists_view(stitched_ids@),
            rings_view(rings@) == rings_of(store@.nodes, all.take(j as int)),
        decreases stitched_ids.len() - j,
    {
        proof {
            lemma_take_step(all, j as int);
        }
        let points = collect_points(store, &stitched_ids[j]);
        if points.len() >= 4 {
            rings.push(points);
        }
        j += 1;
    }
    assert(all.take(stitched_ids.len() as int) =~= all);
    rings
}

/// Whether the tags mark a multipolygon: some tag is `type=multipolygon`.
pub open spec fn is_multipolygon(tags: TagsView) -> bool {
    exists|i: int|
        0 <= i < tags.len() && (#[trigger] tags[i]).0 == "type"@ && tags[i].1 == "multipolygon"@
}

/// Whether a member is a way of the outer part (role `outer` or none) or,
/// with `inner` set, of the inner part (role `inner`).
pub open spec fn is_part(member: MemberView, inner: bool) -> bool {
    member.member_type == MemberType::Way && (if inner {
        member.role == "inner"@
    } else {
        member.role == "outer"@ || member.role == ""@
    })
}

/// The ways of one part of a member list, in order.
pub open spec fn part_ways(members: Seq<MemberView>, inner: bool) -> Seq<i64>
    decreases members.len(),
{
    if members.len() == 0 {
        Seq::empty()
    } else if is_part(members.last(), inner) {
        part_ways(members.drop_last(), inner).push(members.last().ref_id)
    } else {
        part_ways(members.drop_last(), inner)
    }
}

/// The polygon of a multipolygon relation: feature and layer of its tags,
/// the rings of its outer ways and then those of its inner ways. None where
/// the relation is missing, is no multipolygon, or closes no outer ring.
pub open spec fn polygon_of_relation(
    nodes: Map<i64, NodeView>,
    ways: Map<i64, WayView>,
    relations: Map<i64, RelationView>,
    relation_id: i64,
) -> Option<PolygonView> {
    if relations.contains_key(relation_id) && is_multipolygon(relations[relation_id].tags) {
        let relation = relations[relation_id];
        let outer = stitched_rings(nodes, ways, part_ways(relation.members, false));
        let inner = stitched_rings(nodes, ways, part_ways(relation.members, true));
        if outer.len() > 0 {
            Some(
                PolygonView {
                    way_id: 0,
                    render_feature: feature_of_tags(relation.tags),
                    layer: layer_of_tags(relation.tags),
                    rings: outer + inner,
                },
            )
        } else {
            None
        }
    } else {
        None
    }
}

fn has_multipolygon_tag(tags: &Vec<(String, String)>) -> (found: bool)
    ensures
        found == is_multipolygon(tags_view(tags@)),
{
    let ghost all = tags_view(tags@);
    let mut i: usize = 0;
    while i < tags.len()
        invariant
            i <= tags.len(),
            all == tags_view(tags@),
            forall|j: int|
                0 <= j < i ==> !((#[trigger] all[j]).0 == "type"@ && all[j].1 == "multipolygon"@),
        decreases tags.len() - i,
    {
        if str_eq(tags[i].0.as_str(), "type") && str_eq(tags[i].1.as_str(), "multipolygon") {
            assert(all[i as int].0 == "type"@ && all[i as int].1 == "multipolygon"@);
            return true;
        }
        i += 1;
    }
    false
}

fn collect_part(members: &Vec<RelationMember>, inner: bool) -> (ids: Vec<i64>)
    ensures
        ids@ == part_ways(members_view(members@), inner),
{
    let ghost all = members_view(members@);
    let mut ids: Vec<i64> = Vec::new();
    let mut i: usize = 0;
    while i < members.len()
        invariant
            i <= members.len(),
            all == members_view(members@),
            ids@ == part_ways(all.take(i as int), inner),
        decreases members.len() - i,
    {
        proof {
            lemma_take_step(all, i as int);
        }
        let member = &members[i];
        let is_way = match member.member_type {
            MemberType::Way => true,
            _ => false,
        };
        let in_part = if inner {
            str_eq(member.role.as_str(), "inner")
        } else {
            str_eq(member.role.as_str(), "outer") || str_eq(member.role.as_str(), "")
        };
        if is_way && in_part {
            ids.push(member.ref_id);
        }
        i += 1;
    }
    assert(all.take(members.len() as int) =~= all);
    ids
}

/// Assembles the polygon of a multipolygon relation.
pub fn assemble_from_relation(store: &OsmStore, relation_id: i64) -> (polygon: Option<
    AssembledPolygon,
>)
    requires
        store@.keyed(),
    ensures
        polygon is Some == polygon_of_relation(
            store@.nodes,
            store@.ways,
            store@.relations,
            relation_id,
        ) is Some,
        polygon matches Some(p) ==> Some(p@) == polygon_of_relation(
            store@.nodes,
            store@.ways,
            store@.relations,
            relation_id,
        ),
{
    let relation = match store.relation(relation_id) {
        Some(r) => r,
        None => {
            return None;
        },
    };
    if !has_multipolygon_tag(&relation.tags) {
        return None;
    }
    let parsed = parse_tags(relation.tags.as_slice());
    let outer_ways = collect_part(&relation.members, false);
    let inner_ways = collect_part(&relation.members, true);
    let mut rings = stitch_ways_to_rings(store, &outer_ways);
    if rings.len() == 0 {
        return None;
    }
    let mut inner_rings = stitch_ways_to_rings(store, &inner_ways);
    let ghost outer_view = rings_view(rings@);
    let ghost inner_view = rings_view(inner_rings@);
    rings.append(&mut inner_rings);
    assert(rings_view(rings@) =~= outer_view + inner_view);
    Some(
        AssembledPolygon {
            way_id: 0,
            render_feature: parsed.feature,
            layer: parsed.layer,
            rings,
        },
    )
}

} // verus!
