//! The entity store: nodes, ways and relations by identifier, the count of
//! way references to each node, and a spatial index for nodes and for ways.
//!
//! Positions are fixed-point: a coordinate is a number of 1e-7 degrees.

use crate::entity_map::{
    count_entries, counts_get, counts_new, counts_put, node_entries, nodes_get, nodes_ids,
    nodes_len, nodes_new, nodes_position, nodes_put, nodes_take, relation_entries, relations_get,
    relations_ids, relations_len, relations_new, relations_put, way_entries, ways_get, ways_ids,
    ways_len, ways_new, ways_put, ways_take,
};
pub use crate::spatial_index::SpatialEntry;
use crate::spatial_index::{
    index_all, index_bulk_load, index_entries, index_insert, index_inside, index_new,
    index_remove, index_remove_id, index_touching, without_id, QueryBox, SpatialIndex,
};
use crate::count_laws::{
    counts_exact, lemma_add_way_keeps_counts, lemma_remove_way_keeps_counts,
    lemma_restore_keeps_counts, lemma_strip_keeps_counts, room_for, total_refs,
};
use crate::index_laws::{
    lemma_add_node_keeps_indices, lemma_add_way_keeps_way_index, lemma_move_keeps_indices,
    lemma_reindex_keeps_way_index, lemma_remove_node_keeps_indices,
    lemma_remove_way_keeps_way_index,
};
use crate::seq_facts::{
    lemma_not_in_prefix, lemma_push_contains, lemma_push_no_duplicates, lemma_take_step,
};
use crate::tags::{clone_tags, tags_view, TagsView};
use dashmap::DashMap;
use vstd::multiset::Multiset;
use vstd::prelude::*;

verus! {

/// A point of the map.
#[derive(Debug, Clone)]
pub struct OsmNode {
    pub id: i64,
    pub lat: i32,
    pub lon: i32,
    pub tags: Vec<(String, String)>,
}

/// A line or an area: an ordered list of node identifiers.
#[derive(Debug, Clone)]
pub struct OsmWay {
    pub id: i64,
    pub node_refs: Vec<i64>,
    pub tags: Vec<(String, String)>,
    /// Low byte: base category. High byte: flags.
    pub render_feature: u16,
    /// Layer, within `-5..=5` where it was derived from the tags.
    pub layer: i8,
    /// Whether the way is a closed area.
    pub is_area: bool,
}

/// A grouping of elements with roles.
#[derive(Debug, Clone)]
pub struct OsmRelation {
    pub id: i64,
    pub members: Vec<RelationMember>,
    pub tags: Vec<(String, String)>,
}

/// One member of a relation.
#[derive(Debug, Clone)]
pub struct RelationMember {
    pub member_type: MemberType,
    pub ref_id: i64,
    pub role: String,
}

/// The kind of element that a relation member refers to.
#[derive(Debug, Clone, Copy, PartialEq, Eq, Structural)]
pub enum MemberType {
    Node,
    Way,
    Relation,
}

/// The mathematical value of a node.
pub struct NodeView {
    pub id: i64,
    pub lat: i32,
    pub lon: i32,
    pub tags: TagsView,
}

/// The mathematical value of a way.
pub struct WayView {
    pub id: i64,
    pub node_refs: Seq<i64>,
    pub tags: TagsView,
    pub render_feature: u16,
    pub layer: i8,
    pub is_area: bool,
}

/// The mathematical value of a relation member.
pub struct MemberView {
    pub member_type: MemberType,
    pub ref_id: i64,
    pub role: Seq<char>,
}

/// The mathematical value of a relation.
pub struct RelationView {
    pub id: i64,
    pub members: Seq<MemberView>,
    pub tags: TagsView,
}

impl View for OsmNode {
    type V = NodeView;

    open spec fn view(&self) -> NodeView {
        NodeView { id: self.id, lat: self.lat, lon: self.lon, tags: tags_view(self.tags@) }
    }
}

impl View for OsmWay {
    type V = WayView;

    open spec fn view(&self) -> WayView {
        WayView {
            id: self.id,
            node_refs: self.node_refs@,
            tags: tags_view(self.tags@),
            render_feature: self.render_feature,
            layer: self.layer,
            is_area: self.is_area,
        }
    }
}

impl View for RelationMember {
    type V = MemberView;

    open spec fn view(&self) -> MemberView {
        MemberView { member_type: self.member_type, ref_id: self.ref_id, role: self.role@ }
    }
}

/// The mathematical value of a member list.
pub open spec fn members_view(members: Seq<RelationMember>) -> Seq<MemberView> {
    Seq::new(members.len(), |i: int| members[i]@)
}

impl View for OsmRelation {
    type V = RelationView;

    open spec fn view(&self) -> RelationView {
        RelationView {
            id: self.id,
            members: members_view(self.members@),
            tags: tags_view(self.tags@),
        }
    }
}

/// Copies a list of identifiers.
pub fn clone_ids(ids: &Vec<i64>) -> (copy: Vec<i64>)
    ensures
        copy@ == ids@,
{
    let mut copy: Vec<i64> = Vec::new();
    let mut i: usize = 0;
    while i < ids.len()
        invariant
            i <= ids.len(),
            copy@ == ids@.take(i as int),
        decreases ids.len() - i,
    {
        copy.push(ids[i]);
        i += 1;
    }
    copy
}

impl OsmNode {
    /// A copy with the same value.
    pub fn duplicate(&self) -> (copy: OsmNode)
        ensures
            copy@ == self@,
    {
        OsmNode { id: self.id, lat: self.lat, lon: self.lon, tags: clone_tags(&self.tags) }
    }
}

impl OsmWay {
    /// A copy with the same value.
    pub fn duplicate(&self) -> (copy: OsmWay)
        ensures
            copy@ == self@,
    {
        OsmWay {
            id: self.id,
            node_refs: clone_ids(&self.node_refs),
            tags: clone_tags(&self.tags),
            render_feature: self.render_feature,
            layer: self.layer,
            is_area: self.is_area,
        }
    }
}

/// How often `n` occurs in a list of node references.
pub open spec fn occurrences(refs: Seq<i64>, n: i64) -> nat
    decreases refs.len(),
{
    if refs.len() == 0 {
        0
    } else {
        occurrences(refs.drop_last(), n) + if refs.last() == n {
            1nat
        } else {
            0nat
        }
    }
}

/// A count held in 16 bits: below 0 it is 0, above 65535 it is 65535.
pub open spec fn saturated(n: int) -> u16 {
    if n < 0 {
        0u16
    } else if n > 65535 {
        65535u16
    } else {
        n as u16
    }
}

/// The counts after each reference of `refs` has added one to its node.
pub open spec fn counts_raised(counts: Map<i64, u16>, refs: Seq<i64>) -> Map<i64, u16> {
    Map::total(|n: i64| saturated(counts[n] + occurrences(refs, n)))
}

/// The counts after each reference of `refs` has taken one from its node.
pub open spec fn counts_lowered(counts: Map<i64, u16>, refs: Seq<i64>) -> Map<i64, u16> {
    Map::total(|n: i64| saturated(counts[n] - occurrences(refs, n)))
}

/// The box `e`, grown to hold the point.
pub open spec fn widened(e: SpatialEntry, lon: i32, lat: i32) -> SpatialEntry {
    SpatialEntry {
        id: e.id,
        min_lon: if lon < e.min_lon { lon } else { e.min_lon },
        min_lat: if lat < e.min_lat { lat } else { e.min_lat },
        max_lon: if lon > e.max_lon { lon } else { e.max_lon },
        max_lat: if lat > e.max_lat { lat } else { e.max_lat },
    }
}

/// The bounding box, under the identifier `id`, of those nodes of `refs`
/// that `nodes` holds; none where it holds none of them.
pub open spec fn extent_of(nodes: Map<i64, NodeView>, id: i64, refs: Seq<i64>) -> Option<
    SpatialEntry,
>
    decreases refs.len(),
{
    if refs.len() == 0 {
        None
    } else {
        let rest = extent_of(nodes, id, refs.drop_last());
        let n = refs.last();
        if nodes.contains_key(n) {
            match rest {
                Some(e) => Some(widened(e, nodes[n].lon, nodes[n].lat)),
                None => Some(SpatialEntry::point(id, nodes[n].lon, nodes[n].lat)),
            }
        } else {
            rest
        }
    }
}

/// The way index after the entry of one way has been brought up to date:
/// whatever stood under its identifier is gone, and its bounding box stands
/// there, if the way exists and has a referenced node present.
pub open spec fn reindexed(
    index: Multiset<SpatialEntry>,
    nodes: Map<i64, NodeView>,
    ways: Map<i64, WayView>,
    way_id: i64,
) -> Multiset<SpatialEntry> {
    let base = without_id(index, way_id);
    if ways.contains_key(way_id) {
        match extent_of(nodes, way_id, ways[way_id].node_refs) {
            Some(e) => base.insert(e),
            None => base,
        }
    } else {
        base
    }
}

/// Whether `after` is `before` with the entry of every way that refers to
/// `node_id` brought up to date.
pub open spec fn reindexed_around(
    before: Multiset<SpatialEntry>,
    after: Multiset<SpatialEntry>,
    nodes: Map<i64, NodeView>,
    ways: Map<i64, WayView>,
    node_id: i64,
) -> bool {
    forall|e: SpatialEntry|
        #![trigger after.count(e)]
        after.count(e) == (if ways.contains_key(e.id) && ways[e.id].node_refs.contains(node_id) {
            if extent_of(nodes, e.id, ways[e.id].node_refs) == Some(e) {
                1nat
            } else {
                0nat
            }
        } else {
            before.count(e)
        })
}

/// The positions at which `n` stands in a list, ascending.
pub open spec fn positions_of(refs: Seq<i64>, n: i64) -> Seq<usize>
    decreases refs.len(),
{
    if refs.len() == 0 {
        Seq::empty()
    } else if refs.last() == n {
        positions_of(refs.drop_last(), n).push((refs.len() - 1) as usize)
    } else {
        positions_of(refs.drop_last(), n)
    }
}

/// A list without every occurrence of `n`, the rest in order.
pub open spec fn without_node(refs: Seq<i64>, n: i64) -> Seq<i64>
    decreases refs.len(),
{
    if refs.len() == 0 {
        Seq::empty()
    } else if refs.last() == n {
        without_node(refs.drop_last(), n)
    } else {
        without_node(refs.drop_last(), n).push(refs.last())
    }
}

/// A list after `n` was put in at each of the given positions in turn, so
/// that it stands at that position of the list as it then is; a position
/// beyond the end of the list at its turn is passed over. Positions that
/// were taken in ascending order from a list are positions of that list.
pub open spec fn with_node_at(refs: Seq<i64>, n: i64, positions: Seq<usize>) -> Seq<i64>
    decreases positions.len(),
{
    if positions.len() == 0 {
        refs
    } else {
        let sofar = with_node_at(refs, n, positions.drop_last());
        if positions.last() <= sofar.len() {
            sofar.insert(positions.last() as int, n)
        } else {
            sofar
        }
    }
}

/// How many of the positions take their insertion into a list of this
/// length, each at its turn.
pub open spec fn landed(length: nat, positions: Seq<usize>) -> nat
    decreases positions.len(),
{
    if positions.len() == 0 {
        0
    } else {
        let sofar = landed(length, positions.drop_last());
        if positions.last() <= length + sofar {
            sofar + 1
        } else {
            sofar
        }
    }
}

/// Putting a node in makes the list longer by the number of positions that
/// took their insertion, which is at most the number of positions.
pub proof fn lemma_landed(refs: Seq<i64>, n: i64, positions: Seq<usize>)
    ensures
        with_node_at(refs, n, positions).len() == refs.len() + landed(refs.len(), positions),
        landed(refs.len(), positions) <= positions.len(),
    decreases positions.len(),
{
    if positions.len() > 0 {
        lemma_landed(refs, n, positions.drop_last());
    }
}

/// A bounding box carries the identifier it was computed under, and its
/// lower corner is not above its upper one.
pub proof fn lemma_extent_shape(nodes: Map<i64, NodeView>, id: i64, refs: Seq<i64>)
    ensures
        extent_of(nodes, id, refs) matches Some(e) ==> e.id == id && e.well_formed(),
    decreases refs.len(),
{
    if refs.len() > 0 {
        lemma_extent_shape(nodes, id, refs.drop_last());
    }
}

/// The mathematical values of a list of nodes.
pub open spec fn node_views(nodes: Seq<OsmNode>) -> Seq<NodeView> {
    Seq::new(nodes.len(), |i: int| nodes[i]@)
}

/// The nodes that stand under the identifiers of the entries, in the order
/// of the entries; an entry without a node is passed over.
pub open spec fn present_nodes(nodes: Map<i64, NodeView>, hits: Seq<SpatialEntry>) -> Seq<
    NodeView,
>
    decreases hits.len(),
{
    if hits.len() == 0 {
        Seq::empty()
    } else if nodes.contains_key(hits.last().id) {
        present_nodes(nodes, hits.drop_last()).push(nodes[hits.last().id])
    } else {
        present_nodes(nodes, hits.drop_last())
    }
}

/// The identifiers of a list of entries, in order.
pub open spec fn entry_ids(hits: Seq<SpatialEntry>) -> Seq<i64> {
    Seq::new(hits.len(), |i: int| hits[i].id)
}

/// The envelope of a set of nodes, with its midpoint.
#[derive(Debug, Clone, Copy, PartialEq, Eq, Structural)]
pub struct DataBounds {
    pub min_lon: i32,
    pub min_lat: i32,
    pub max_lon: i32,
    pub max_lat: i32,
    pub center_lon: i32,
    pub center_lat: i32,
}

/// The midpoint of two coordinates, rounded towards the lower one.
pub open spec fn midpoint(low: i32, high: i32) -> int {
    low + (high - low) / 2
}

/// Whether `b` is the envelope of all nodes: every node lies inside it, each
/// of its four sides passes through a node, and its centre is the midpoint.
pub open spec fn is_bounds_of(nodes: Map<i64, NodeView>, b: DataBounds) -> bool {
    &&& forall|k: i64| #[trigger]
        nodes.contains_key(k) ==> b.min_lon <= nodes[k].lon <= b.max_lon && b.min_lat
            <= nodes[k].lat <= b.max_lat
    &&& exists|k: i64| #[trigger] nodes.contains_key(k) && nodes[k].lon == b.min_lon
    &&& exists|k: i64| #[trigger] nodes.contains_key(k) && nodes[k].lon == b.max_lon
    &&& exists|k: i64| #[trigger] nodes.contains_key(k) && nodes[k].lat == b.min_lat
    &&& exists|k: i64| #[trigger] nodes.contains_key(k) && nodes[k].lat == b.max_lat
    &&& b.center_lon == midpoint(b.min_lon, b.max_lon)
    &&& b.center_lat == midpoint(b.min_lat, b.max_lat)
}

/// The midpoint of two coordinates, rounded towards the lower one.
pub fn midpoint_of(low: i32, high: i32) -> (mid: i32)
    requires
        low <= high,
    ensures
        mid == midpoint(low, high),
        low <= mid <= high,
{
    let span: i64 = high as i64 - low as i64;
    let half: i64 = span / 2;
    (low as i64 + half) as i32
}

/// The mathematical value of a store.
#[verifier::ext_equal]
pub struct StoreView {
    pub nodes: Map<i64, NodeView>,
    pub ways: Map<i64, WayView>,
    pub relations: Map<i64, RelationView>,
    /// For every node identifier, the count held for it; 0 where none is held.
    pub ref_counts: Map<i64, u16>,
    pub node_index: Multiset<SpatialEntry>,
    pub way_index: Multiset<SpatialEntry>,
    pub index_dirty: bool,
    pub next_local_id: i64,
}

/// The count that a map of counts gives for every identifier: 0 where it holds none.
pub open spec fn counts_total(held: Map<i64, u16>) -> Map<i64, u16> {
    Map::total(|n: i64| if held.contains_key(n) { held[n] } else { 0u16 })
}

impl StoreView {
    /// The node index holds one point entry for each node, and nothing else.
    pub open spec fn node_index_exact(self) -> bool {
        forall|e: SpatialEntry|
            #![trigger self.node_index.count(e)]
            self.node_index.count(e) == (if self.nodes.contains_key(e.id) && e
                == SpatialEntry::point(e.id, self.nodes[e.id].lon, self.nodes[e.id].lat) {
                1nat
            } else {
                0nat
            })
    }

    /// The way index holds, for each way with a referenced node present, one
    /// entry with the bounding box of those nodes, and nothing else.
    pub open spec fn way_index_exact(self) -> bool {
        forall|e: SpatialEntry|
            #![trigger self.way_index.count(e)]
            self.way_index.count(e) == (if self.ways.contains_key(e.id) && extent_of(
                self.nodes,
                e.id,
                self.ways[e.id].node_refs,
            ) == Some(e) {
                1nat
            } else {
                0nat
            })
    }

    /// What every store keeps: finitely many entities, each under its own
    /// identifier, no way longer than memory allows, and a count for every
    /// node identifier.
    pub open spec fn keyed(self) -> bool {
        &&& self.nodes.dom().finite()
        &&& self.ways.dom().finite()
        &&& self.relations.dom().finite()
        &&& forall|k: i64| #[trigger] self.nodes.contains_key(k) ==> self.nodes[k].id == k
        &&& forall|k: i64|
            #[trigger] self.ways.contains_key(k) ==> self.ways[k].id == k
                && self.ways[k].node_refs.len() <= usize::MAX
        &&& forall|k: i64| #[trigger]
            self.relations.contains_key(k) ==> self.relations[k].id == k
        &&& self.ref_counts.dom() == Set::<i64>::full()
    }

    /// The store after a node was removed with its index entry; the store
    /// itself where the node is not there.
    pub open spec fn without_node(self, node_id: i64) -> StoreView {
        if self.nodes.contains_key(node_id) {
            StoreView {
                nodes: self.nodes.remove(node_id),
                node_index: self.node_index.remove(
                    SpatialEntry::point(node_id, self.nodes[node_id].lon, self.nodes[node_id].lat),
                ),
                ..self
            }
        } else {
            self
        }
    }

    /// The store after a node was added with its index entry, in place of
    /// the node that stood under its identifier and of the index entry of
    /// that node.
    pub open spec fn with_node(self, node: NodeView) -> StoreView {
        let cleared = self.without_node(node.id);
        StoreView {
            nodes: cleared.nodes.insert(node.id, node),
            node_index: cleared.node_index.insert(
                SpatialEntry::point(node.id, node.lon, node.lat),
            ),
            ..cleared
        }
    }

    /// The store after a way was removed with its counts and its index
    /// entries; the store itself where the way is not there.
    pub open spec fn without_way(self, way_id: i64) -> StoreView {
        if self.ways.contains_key(way_id) {
            StoreView {
                ways: self.ways.remove(way_id),
                ref_counts: counts_lowered(self.ref_counts, self.ways[way_id].node_refs),
                way_index: without_id(self.way_index, way_id),
                ..self
            }
        } else {
            self
        }
    }

    /// The store after a way was added with its counts and its index entry,
    /// in place of the way that stood under its identifier and of the counts
    /// and the index entries of that way.
    pub open spec fn with_way(self, way: WayView) -> StoreView {
        let cleared = self.without_way(way.id);
        StoreView {
            ways: cleared.ways.insert(way.id, way),
            ref_counts: counts_raised(cleared.ref_counts, way.node_refs),
            way_index: match extent_of(cleared.nodes, way.id, way.node_refs) {
                Some(e) => cleared.way_index.insert(e),
                None => cleared.way_index,
            },
            ..cleared
        }
    }

    /// The store after every occurrence of a node was taken out of a way;
    /// the store itself where the way is not there or does not hold the node.
    pub open spec fn stripped(self, way_id: i64, node_id: i64) -> StoreView {
        if self.ways.contains_key(way_id) && positions_of(
            self.ways[way_id].node_refs,
            node_id,
        ).len() > 0 {
            let way = self.ways[way_id];
            let ways = self.ways.insert(
                way_id,
                WayView { node_refs: without_node(way.node_refs, node_id), ..way },
            );
            StoreView {
                ways,
                ref_counts: self.ref_counts.insert(
                    node_id,
                    saturated(self.ref_counts[node_id] - positions_of(way.node_refs, node_id).len()),
                ),
                way_index: reindexed(self.way_index, self.nodes, ways, way_id),
                ..self
            }
        } else {
            self
        }
    }

    /// The store after a node was put into a way at the given positions:
    /// the count of the node raised by the number of insertions made, and
    /// the entry of the way brought up to date. The store itself where no
    /// position is given.
    pub open spec fn restored(self, way_id: i64, node_id: i64, positions: Seq<usize>) -> StoreView {
        if positions.len() > 0 {
            let ways = if self.ways.contains_key(way_id) {
                let way = self.ways[way_id];
                self.ways.insert(
                    way_id,
                    WayView { node_refs: with_node_at(way.node_refs, node_id, positions), ..way },
                )
            } else {
                self.ways
            };
            let made = if self.ways.contains_key(way_id) {
                landed(self.ways[way_id].node_refs.len(), positions)
            } else {
                0
            };
            StoreView {
                ways,
                ref_counts: self.ref_counts.insert(
                    node_id,
                    saturated(self.ref_counts[node_id] + made),
                ),
                way_index: reindexed(self.way_index, self.nodes, ways, way_id),
                ..self
            }
        } else {
            self
        }
    }

    /// Whether `after` is the store with a node moved: the node at its new
    /// position, its index entry moved with it, and the entry of every way
    /// that refers to it brought up to date. The store itself where the node
    /// is not there.
    pub open spec fn moved(self, after: StoreView, node_id: i64, lon: i32, lat: i32) -> bool {
        if self.nodes.contains_key(node_id) {
            &&& after == (StoreView {
                nodes: self.nodes.insert(
                    node_id,
                    NodeView { lon: lon, lat: lat, ..self.nodes[node_id] },
                ),
                node_index: self.node_index.remove(
                    SpatialEntry::point(node_id, self.nodes[node_id].lon, self.nodes[node_id].lat),
                ).insert(SpatialEntry::point(node_id, lon, lat)),
                way_index: after.way_index,
                ..self
            })
            &&& reindexed_around(self.way_index, after.way_index, after.nodes, self.ways, node_id)
        } else {
            after == self
        }
    }

    /// Whether some way refers to the node.
    pub open spec fn is_referenced(self, node_id: i64) -> bool {
        exists|w: i64| #[trigger]
            self.ways.contains_key(w) && self.ways[w].node_refs.contains(node_id)
    }
}

/// Whether a list of identifiers holds `n`.
pub fn refs_contain(refs: &Vec<i64>, n: i64) -> (found: bool)
    ensures
        found == refs@.contains(n),
{
    let mut i: usize = 0;
    while i < refs.len()
        invariant
            i <= refs.len(),
            forall|j: int| 0 <= j < i ==> refs@[j] != n,
        decreases refs.len() - i,
    {
        if refs[i] == n {
            return true;
        }
        i += 1;
    }
    false
}

/// One more reference changes the occurrences of its node alone.
pub proof fn lemma_occurrences_push(refs: Seq<i64>, last: i64, n: i64)
    ensures
        occurrences(refs.push(last), n) == occurrences(refs, n) + (if last == n {
            1nat
        } else {
            0nat
        }),
{
    assert(refs.push(last).drop_last() =~= refs);
}

/// A node occurs in a list exactly when the list holds it.
pub proof fn lemma_occurrences_contains(refs: Seq<i64>, n: i64)
    ensures
        occurrences(refs, n) > 0 <==> refs.contains(n),
        occurrences(refs, n) <= refs.len(),
    decreases refs.len(),
{
    if refs.len() > 0 {
        lemma_occurrences_contains(refs.drop_last(), n);
        if refs.last() == n {
            assert(refs[refs.len() - 1] == n);
        } else if refs.contains(n) {
            let i = choose|i: int| 0 <= i < refs.len() && refs[i] == n;
            assert(refs.drop_last()[i] == n);
        } else if refs.drop_last().contains(n) {
            let i = choose|i: int| 0 <= i < refs.drop_last().len() && refs.drop_last()[i] == n;
            assert(refs[i] == n);
        }
    }
}

/// The identifiers of a list of entries, in order.
pub fn ids_of_entries(hits: &Vec<SpatialEntry>) -> (ids: Vec<i64>)
    ensures
        ids@ == entry_ids(hits@),
{
    let mut ids: Vec<i64> = Vec::new();
    let mut i: usize = 0;
    while i < hits.len()
        invariant
            i <= hits.len(),
            ids@.len() == i,
            forall|j: int| 0 <= j < i ==> ids@[j] == hits@[j].id,
        decreases hits.len() - i,
    {
        ids.push(hits[i].id);
        i += 1;
    }
    ids
}

/// The store.
pub struct OsmStore {
    nodes: DashMap<i64, OsmNode>,
    ways: DashMap<i64, OsmWay>,
    relations: DashMap<i64, OsmRelation>,
    node_ref_count: DashMap<i64, u16>,
    node_index: SpatialIndex,
    way_index: SpatialIndex,
    index_dirty: bool,
    next_local_id: i64,
}

impl View for OsmStore {
    type V = StoreView;

    closed spec fn view(&self) -> StoreView {
        StoreView {
            nodes: node_entries(self.nodes),
            ways: way_entries(self.ways),
            relations: relation_entries(self.relations),
            ref_counts: counts_total(count_entries(self.node_ref_count)),
            node_index: index_entries(self.node_index),
            way_index: index_entries(self.way_index),
            index_dirty: self.index_dirty,
            next_local_id: self.next_local_id,
        }
    }
}

impl OsmStore {
    /// An empty store. The first local identifier is -1.
    pub fn new() -> (store: Self)
        ensures
            store@.nodes == Map::<i64, NodeView>::empty(),
            store@.ways == Map::<i64, WayView>::empty(),
            store@.relations == Map::<i64, RelationView>::empty(),
            store@.ref_counts == Map::total(|n: i64| 0u16),
            store@.node_index == Multiset::<SpatialEntry>::empty(),
            store@.way_index == Multiset::<SpatialEntry>::empty(),
            !store@.index_dirty,
            store@.next_local_id == -1,
            store@.keyed(),
            store@.node_index_exact(),
            store@.way_index_exact(),
            counts_exact(store@),
    {
        let store = OsmStore {
            nodes: nodes_new(),
            ways: ways_new(),
            relations: relations_new(),
            node_ref_count: counts_new(),
            node_index: index_new(),
            way_index: index_new(),
            index_dirty: false,
            next_local_id: -1,
        };
        proof {
            broadcast use vstd::multiset::group_multiset_axioms;

        }
        store
    }

    /// Hands out the next local identifier: -1 first, then each one below the
    /// last (after the lowest number the count goes on from the highest).
    pub fn generate_local_id(&mut self) -> (id: i64)
        ensures
            id == old(self)@.next_local_id,
            final(self)@.next_local_id == (if id == i64::MIN { i64::MAX } else { (id - 1) as i64 }),
            final(self)@ == (StoreView { next_local_id: final(self)@.next_local_id, ..old(self)@ }),
    {
        let id = self.next_local_id;
        self.next_local_id = if id == i64::MIN { i64::MAX } else { id - 1 };
        id
    }

    /// The node with this identifier.
    pub fn node(&self, id: i64) -> (found: Option<OsmNode>)
        requires
            self@.keyed(),
        ensures
            found is Some == self@.nodes.contains_key(id),
            found matches Some(n) ==> n@ == self@.nodes[id] && n.id == id,
    {
        nodes_get(&self.nodes, id)
    }

    /// Longitude and latitude of the node with this identifier.
    pub fn node_position(&self, id: i64) -> (found: Option<(i32, i32)>)
        ensures
            found is Some == self@.nodes.contains_key(id),
            found matches Some(p) ==> p.0 == self@.nodes[id].lon && p.1 == self@.nodes[id].lat,
    {
        nodes_position(&self.nodes, id)
    }

    /// The way with this identifier.
    pub fn way(&self, id: i64) -> (found: Option<OsmWay>)
        requires
            self@.keyed(),
        ensures
            found is Some == self@.ways.contains_key(id),
            found matches Some(w) ==> w@ == self@.ways[id] && w.id == id,
    {
        ways_get(&self.ways, id)
    }

    /// The relation with this identifier.
    pub fn relation(&self, id: i64) -> (found: Option<OsmRelation>)
        requires
            self@.keyed(),
        ensures
            found is Some == self@.relations.contains_key(id),
            found matches Some(r) ==> r@ == self@.relations[id] && r.id == id,
    {
        relations_get(&self.relations, id)
    }

    /// How many way references the store counts for a node.
    pub fn ref_count(&self, node_id: i64) -> (count: u16)
        ensures
            count == self@.ref_counts[node_id],
    {
        match counts_get(&self.node_ref_count, node_id) {
            Some(c) => c,
            None => 0,
        }
    }

    /// Whether the indices lag behind the maps since the last rebuild.
    pub fn is_index_dirty(&self) -> (dirty: bool)
        ensures
            dirty == self@.index_dirty,
    {
        self.index_dirty
    }

    /// Adds a node to the map, or replaces the one with its identifier. The
    /// indices are not touched, and are marked as lagging.
    pub fn insert_node(&mut self, node: OsmNode)
        requires
            old(self)@.keyed(),
        ensures
            final(self)@.keyed(),
            final(self)@ == (StoreView {
                nodes: old(self)@.nodes.insert(node.id, node@),
                index_dirty: true,
                ..old(self)@
            }),
    {
        nodes_put(&mut self.nodes, node);
        self.index_dirty = true;
    }

    fn raise_counts(&mut self, refs: &Vec<i64>)
        ensures
            final(self)@ == (StoreView {
                ref_counts: counts_raised(old(self)@.ref_counts, refs@),
                ..old(self)@
            }),
    {
        let ghost before = self@;
        let mut i: usize = 0;
        while i < refs.len()
            invariant
                i <= refs.len(),
                self@ == (StoreView {
                    ref_counts: counts_raised(before.ref_counts, refs@.take(i as int)),
                    ..before
                }),
            decreases refs.len() - i,
        {
            let n = refs[i];
            let c = match counts_get(&self.node_ref_count, n) {
                Some(c) => c,
                None => 0,
            };
            let raised: u16 = if c == 65535 { 65535 } else { c + 1 };
            let ghost prev = self@.ref_counts;
            counts_put(&mut self.node_ref_count, n, raised);
            proof {
                let shorter = refs@.take(i as int);
                let longer = refs@.take(i + 1);
                assert(longer =~= shorter.push(n));
                assert forall|k: i64|
                    #[trigger] self@.ref_counts[k] == counts_raised(before.ref_counts, longer)[k] by {
                    lemma_occurrences_push(shorter, n, k);
                    assert(prev[k] == saturated(before.ref_counts[k] + occurrences(shorter, k)));
                }
            }
            i += 1;
        }
        assert(refs@.take(refs.len() as int) =~= refs@);
    }

    fn lower_counts(&mut self, refs: &Vec<i64>)
        ensures
            final(self)@ == (StoreView {
                ref_counts: counts_lowered(old(self)@.ref_counts, refs@),
                ..old(self)@
            }),
    {
        let ghost before = self@;
        let mut i: usize = 0;
        while i < refs.len()
            invariant
                i <= refs.len(),
                self@ == (StoreView {
                    ref_counts: counts_lowered(before.ref_counts, refs@.take(i as int)),
                    ..before
                }),
            decreases refs.len() - i,
        {
            let n = refs[i];
            let ghost prev = self@.ref_counts;
            match counts_get(&self.node_ref_count, n) {
                Some(c) => {
                    let lowered: u16 = if c == 0 { 0 } else { c - 1 };
                    counts_put(&mut self.node_ref_count, n, lowered);
                },
                None => {},
            }
            proof {
                let shorter = refs@.take(i as int);
                let longer = refs@.take(i + 1);
                assert(longer =~= shorter.push(n));
                assert forall|k: i64|
                    #[trigger] self@.ref_counts[k] == counts_lowered(before.ref_counts, longer)[k] by {
                    lemma_occurrences_push(shorter, n, k);
                    assert(prev[k] == saturated(before.ref_counts[k] - occurrences(shorter, k)));
                }
            }
            i += 1;
        }
        assert(refs@.take(refs.len() as int) =~= refs@);
    }

    /// Adds a way to the map and counts each of its references. Where it
    /// replaces the way with its identifier, the references of that way are
    /// no longer counted. The indices are not touched, and are marked as
    /// lagging.
    pub fn insert_way(&mut self, way: OsmWay)
        requires
            old(self)@.keyed(),
        ensures
            final(self)@.keyed(),
            final(self)@ == (StoreView {
                ways: old(self)@.ways.insert(way.id, way@),
                ref_counts: counts_raised(
                    old(self)@.without_way(way.id).ref_counts,
                    way.node_refs@,
                ),
                index_dirty: true,
                ..old(self)@
            }),
            counts_exact(old(self)@) && room_for(old(self)@.without_way(way.id), way.node_refs@)
                ==> counts_exact(final(self)@),
    {
        match ways_take(&mut self.ways, way.id) {
            Some(replaced) => {
                self.lower_counts(&replaced.node_refs);
            },
            None => {},
        }
        let ghost cleared = self@;
        proof {
            assert(cleared.ways =~= old(self)@.without_way(way.id).ways);
            if counts_exact(old(self)@) && old(self)@.ways.contains_key(way.id) {
                lemma_remove_way_keeps_counts(old(self)@, cleared, way.id);
            }
        }
        self.raise_counts(&way.node_refs);
        let ghost value = way@;
        assert(way.node_refs.len() == value.node_refs.len());
        ways_put(&mut self.ways, way);
        self.index_dirty = true;
        proof {
            assert(self@.ways =~= old(self)@.ways.insert(value.id, value));
            if counts_exact(old(self)@) && room_for(
                old(self)@.without_way(value.id),
                value.node_refs,
            ) {
                lemma_add_way_keeps_counts(cleared, self@, value);
            }
        }
    }

    /// Adds a relation to the map, or replaces the one with its identifier.
    /// The indices are not touched, and are marked as lagging.
    pub fn insert_relation(&mut self, relation: OsmRelation)
        requires
            old(self)@.keyed(),
        ensures
            final(self)@.keyed(),
            final(self)@ == (StoreView {
                relations: old(self)@.relations.insert(relation.id, relation@),
                index_dirty: true,
                ..old(self)@
            }),
    {
        relations_put(&mut self.relations, relation);
        self.index_dirty = true;
    }

    /// The bounding box of those nodes of a way that the store holds.
    pub fn compute_way_bbox(&self, way: &OsmWay) -> (bbox: Option<SpatialEntry>)
        ensures
            bbox == extent_of(self@.nodes, way.id, way.node_refs@),
            bbox matches Some(e) ==> e.well_formed() && e.id == way.id,
    {
        let mut bbox: Option<SpatialEntry> = None;
        let mut i: usize = 0;
        while i < way.node_refs.len()
            invariant
                i <= way.node_refs.len(),
                bbox == extent_of(self@.nodes, way.id, way.node_refs@.take(i as int)),
                bbox matches Some(e) ==> e.well_formed() && e.id == way.id,
            decreases way.node_refs.len() - i,
        {
            assert(way.node_refs@.take(i + 1).drop_last() =~= way.node_refs@.take(i as int));
            match nodes_position(&self.nodes, way.node_refs[i]) {
                Some((lon, lat)) => {
                    bbox = Some(
                        match bbox {
                            Some(e) => SpatialEntry {
                                id: e.id,
                                min_lon: if lon < e.min_lon { lon } else { e.min_lon },
                                min_lat: if lat < e.min_lat { lat } else { e.min_lat },
                                max_lon: if lon > e.max_lon { lon } else { e.max_lon },
                                max_lat: if lat > e.max_lat { lat } else { e.max_lat },
                            },
                            None => SpatialEntry::at_point(way.id, lon, lat),
                        },
                    );
                },
                None => {},
            }
            i += 1;
        }
        assert(way.node_refs@.take(way.node_refs.len() as int) =~= way.node_refs@);
        bbox
    }

    /// How many nodes, ways and relations the store holds.
    pub fn stats(&self) -> (stats: StoreStats)
        ensures
            stats.node_count == self@.nodes.dom().len(),
            stats.way_count == self@.ways.dom().len(),
            stats.relation_count == self@.relations.dom().len(),
    {
        StoreStats {
            node_count: nodes_len(&self.nodes),
            way_count: ways_len(&self.ways),
            relation_count: relations_len(&self.relations),
        }
    }

    /// The identifiers of the ways that refer to a node, each once, in no
    /// particular order.
    pub fn find_ways_referencing_node(&self, node_id: i64) -> (ids: Vec<i64>)
        ensures
            ids@.no_duplicates(),
            forall|w: i64|
                ids@.contains(w) <==> (self@.ways.contains_key(w)
                    && self@.ways[w].node_refs.contains(node_id)),
    {
        let all = ways_ids(&self.ways);
        let mut ids: Vec<i64> = Vec::new();
        let mut i: usize = 0;
        while i < all.len()
            invariant
                i <= all.len(),
                all@.no_duplicates(),
                all@.to_set() == self@.ways.dom(),
                ids@.no_duplicates(),
                forall|w: i64|
                    ids@.contains(w) <==> (all@.take(i as int).contains(w)
                        && self@.ways[w].node_refs.contains(node_id)),
            decreases all.len() - i,
        {
            let w = all[i];
            let ghost before = ids@;
            proof {
                lemma_take_step(all@, i as int);
                lemma_not_in_prefix(all@, i as int);
                lemma_push_contains(all@.take(i as int), w);
                lemma_push_contains(before, w);
            }
            match ways_get(&self.ways, w) {
                Some(way) => {
                    if refs_contain(&way.node_refs, node_id) {
                        ids.push(w);
                        proof {
                            lemma_push_no_duplicates(before, w);
                        }
                    }
                },
                None => {},
            }
            i += 1;
        }
        proof {
            assert(all@.take(all.len() as int) =~= all@);
        }
        ids
    }

    /// Adds a node, or replaces the one with its identifier, and enters its
    /// position in the node index in place of the position of the node that
    /// it replaces.
    pub fn add_node_with_index(&mut self, node: OsmNode)
        requires
            old(self)@.keyed(),
        ensures
            final(self)@.keyed(),
            final(self)@ == old(self)@.with_node(node@),
            old(self)@.node_index_exact() ==> final(self)@.node_index_exact(),
            old(self)@.way_index_exact() && !old(self)@.is_referenced(node.id)
                ==> final(self)@.way_index_exact(),
    {
        let entry = SpatialEntry::at_point(node.id, node.lon, node.lat);
        let ghost value = node@;
        match nodes_position(&self.nodes, node.id) {
            Some((lon, lat)) => {
                index_remove(&mut self.node_index, SpatialEntry::at_point(node.id, lon, lat));
            },
            None => {},
        }
        nodes_put(&mut self.nodes, node);
        index_insert(&mut self.node_index, entry);
        proof {
            assert(self@.nodes =~= old(self)@.with_node(value).nodes);
            lemma_add_node_keeps_indices(old(self)@, self@, value);
        }
    }

    /// Removes a node and the entry of its position from the node index.
    /// Hands back the node; does nothing where there is none.
    pub fn remove_node_with_index(&mut self, node_id: i64) -> (removed: Option<OsmNode>)
        requires
            old(self)@.keyed(),
        ensures
            final(self)@.keyed(),
            removed is Some == old(self)@.nodes.contains_key(node_id),
            removed matches Some(n) ==> n@ == old(self)@.nodes[node_id],
            final(self)@ == old(self)@.without_node(node_id),
            old(self)@.node_index_exact() ==> final(self)@.node_index_exact(),
            old(self)@.way_index_exact() && !old(self)@.is_referenced(node_id)
                ==> final(self)@.way_index_exact(),
    {
        let removed = nodes_take(&mut self.nodes, node_id);
        match &removed {
            Some(node) => {
                let entry = SpatialEntry::at_point(node_id, node.lon, node.lat);
                index_remove(&mut self.node_index, entry);
                proof {
                    lemma_remove_node_keeps_indices(old(self)@, self@, node_id);
                }
            },
            None => {
            },
        }
        removed
    }

    /// Adds a way: counts each of its references and enters its bounding
    /// box in the way index. Where it replaces the way with its identifier,
    /// the references of that way are no longer counted and its entries
    /// leave the way index.
    pub fn add_way_with_index(&mut self, way: OsmWay)
        requires
            old(self)@.keyed(),
        ensures
            final(self)@.keyed(),
            final(self)@ == old(self)@.with_way(way@),
            old(self)@.node_index_exact() ==> final(self)@.node_index_exact(),
            old(self)@.way_index_exact() ==> final(self)@.way_index_exact(),
            counts_exact(old(self)@) && room_for(old(self)@.without_way(way.id), way.node_refs@)
                ==> counts_exact(final(self)@),
    {
        self.remove_way_with_index(way.id);
        let ghost cleared = self@;
        self.raise_counts(&way.node_refs);
        match self.compute_way_bbox(&way) {
            Some(bbox) => {
                index_insert(&mut self.way_index, bbox);
            },
            None => {},
        }
        let ghost value = way@;
        assert(way.node_refs.len() == value.node_refs.len());
        ways_put(&mut self.ways, way);
        proof {
            if old(self)@.way_index_exact() {
                lemma_add_way_keeps_way_index(cleared, self@, value);
            }
            if counts_exact(old(self)@) && room_for(cleared, value.node_refs) {
                lemma_add_way_keeps_counts(cleared, self@, value);
            }
        }
    }

    /// Removes a way: its references are no longer counted, and nothing is
    /// left under its identifier in the way index. Hands back the way; does
    /// nothing where there is none.
    pub fn remove_way_with_index(&mut self, way_id: i64) -> (removed: Option<OsmWay>)
        requires
            old(self)@.keyed(),
        ensures
            final(self)@.keyed(),
            removed is Some == old(self)@.ways.contains_key(way_id),
            removed matches Some(w) ==> w@ == old(self)@.ways[way_id],
            final(self)@ == old(self)@.without_way(way_id),
            old(self)@.node_index_exact() ==> final(self)@.node_index_exact(),
            old(self)@.way_index_exact() ==> final(self)@.way_index_exact(),
            counts_exact(old(self)@) ==> counts_exact(final(self)@),
    {
        let removed = ways_take(&mut self.ways, way_id);
        match &removed {
            Some(way) => {
                self.lower_counts(&way.node_refs);
                index_remove_id(&mut self.way_index, way_id);
                proof {
                    if old(self)@.way_index_exact() {
                        lemma_remove_way_keeps_way_index(old(self)@, self@, way_id);
                    }
                    if counts_exact(old(self)@) {
                        lemma_remove_way_keeps_counts(old(self)@, self@, way_id);
                    }
                }
            },
            None => {
            },
        }
        removed
    }

    fn update_way_rtree(&mut self, way_id: i64)
        requires
            old(self)@.keyed(),
        ensures
            final(self)@ == (StoreView {
                way_index: reindexed(
                    old(self)@.way_index,
                    old(self)@.nodes,
                    old(self)@.ways,
                    way_id,
                ),
                ..old(self)@
            }),
    {
        index_remove_id(&mut self.way_index, way_id);
        match ways_get(&self.ways, way_id) {
            Some(way) => {
                match self.compute_way_bbox(&way) {
                    Some(bbox) => {
                        index_insert(&mut self.way_index, bbox);
                    },
                    None => {},
                }
            },
            None => {},
        }
    }

    /// Moves a node. Its entry in the node index moves with it, and the entry
    /// of every way that refers to it is brought up to date. Does nothing
    /// and answers `false` where the node is not there.
    pub fn update_node_position(&mut self, node_id: i64, new_lon: i32, new_lat: i32) -> (moved:
        bool)
        requires
            old(self)@.keyed(),
        ensures
            final(self)@.keyed(),
            moved == old(self)@.nodes.contains_key(node_id),
            old(self)@.moved(final(self)@, node_id, new_lon, new_lat),
            old(self)@.node_index_exact() ==> final(self)@.node_index_exact(),
            old(self)@.way_index_exact() ==> final(self)@.way_index_exact(),
    {
        let node = match nodes_get(&self.nodes, node_id) {
            Some(n) => n,
            None => {
                return false;
            },
        };
        let old_entry = SpatialEntry::at_point(node_id, node.lon, node.lat);
        let new_entry = SpatialEntry::at_point(node_id, new_lon, new_lat);
        let moved_node = OsmNode { id: node.id, lat: new_lat, lon: new_lon, tags: node.tags };
        nodes_put(&mut self.nodes, moved_node);
        index_remove(&mut self.node_index, old_entry);
        index_insert(&mut self.node_index, new_entry);
        let affected = self.find_ways_referencing_node(node_id);
        let ghost start = self@;
        let mut i: usize = 0;
        while i < affected.len()
            invariant
                i <= affected.len(),
                start.keyed(),
                affected@.no_duplicates(),
                forall|w: i64|
                    affected@.contains(w) <==> (start.ways.contains_key(w)
                        && start.ways[w].node_refs.contains(node_id)),
                self@ == (StoreView { way_index: self@.way_index, ..start }),
                forall|e: SpatialEntry|
                    #![trigger self@.way_index.count(e)]
                    self@.way_index.count(e) == (if affected@.take(i as int).contains(e.id) {
                        if extent_of(start.nodes, e.id, start.ways[e.id].node_refs) == Some(e) {
                            1nat
                        } else {
                            0nat
                        }
                    } else {
                        start.way_index.count(e)
                    }),
            decreases affected.len() - i,
        {
            let w = affected[i];
            proof {
                lemma_take_step(affected@, i as int);
                lemma_not_in_prefix(affected@, i as int);
                lemma_push_contains(affected@.take(i as int), w);
                assert(affected@.contains(w));
            }
            self.update_way_rtree(w);
            proof {
                broadcast use vstd::multiset::group_multiset_axioms;

                lemma_extent_shape(start.nodes, w, start.ways[w].node_refs);
            }
            i += 1;
        }
        proof {
            assert(affected@.take(affected.len() as int) =~= affected@);
            lemma_move_keeps_indices(old(self)@, self@, node_id, new_lon, new_lat);
        }
        true
    }

    /// Takes every occurrence of a node out of a way and says where they
    /// stood. Where any stood, the count of the node goes down by their
    /// number and the entry of the way in the way index is brought up to date.
    pub fn remove_node_from_way(&mut self, way_id: i64, node_id: i64) -> (removed: Vec<usize>)
        requires
            old(self)@.keyed(),
        ensures
            final(self)@.keyed(),
            !old(self)@.ways.contains_key(way_id) ==> removed@.len() == 0,
            old(self)@.ways.contains_key(way_id) ==> removed@ == positions_of(
                old(self)@.ways[way_id].node_refs,
                node_id,
            ),
            final(self)@ == old(self)@.stripped(way_id, node_id),
            old(self)@.node_index_exact() ==> final(self)@.node_index_exact(),
            old(self)@.way_index_exact() ==> final(self)@.way_index_exact(),
            counts_exact(old(self)@) ==> counts_exact(final(self)@),
    {
        let way = match ways_get(&self.ways, way_id) {
            Some(w) => w,
            None => {
                return Vec::new();
            },
        };
        let mut kept: Vec<i64> = Vec::new();
        let mut removed: Vec<usize> = Vec::new();
        let mut i: usize = 0;
        while i < way.node_refs.len()
            invariant
                i <= way.node_refs.len(),
                kept@ == without_node(way.node_refs@.take(i as int), node_id),
                removed@ == positions_of(way.node_refs@.take(i as int), node_id),
            decreases way.node_refs.len() - i,
        {
            proof {
                lemma_take_step(way.node_refs@, i as int);
            }
            if way.node_refs[i] == node_id {
                removed.push(i);
            } else {
                kept.push(way.node_refs[i]);
            }
            i += 1;
        }
        assert(way.node_refs@.take(way.node_refs.len() as int) =~= way.node_refs@);
        if removed.len() > 0 {
            let stripped = OsmWay {
                id: way.id,
                node_refs: kept,
                tags: way.tags,
                render_feature: way.render_feature,
                layer: way.layer,
                is_area: way.is_area,
            };
            assert(stripped.node_refs.len() == stripped@.node_refs.len());
            ways_put(&mut self.ways, stripped);
            let c = self.ref_count(node_id);
            let lowered: u16 = if removed.len() >= c as usize {
                0
            } else {
                c - removed.len() as u16
            };
            counts_put(&mut self.node_ref_count, node_id, lowered);
            assert(self@.ref_counts =~= old(self)@.ref_counts.insert(node_id, lowered));
            self.update_way_rtree(way_id);
            proof {
                if old(self)@.way_index_exact() {
                    lemma_reindex_keeps_way_index(old(self)@, self@.ways, way_id, self@);
                }
                if counts_exact(old(self)@) {
                    lemma_strip_keeps_counts(old(self)@, self@, way_id, node_id);
                }
            }
        }
        removed
    }

    /// Puts a node into a way at the positions where it stood before it was
    /// taken out, in the order given. Where positions are given, the count
    /// of the node goes up by the number of insertions made and the entry of
    /// the way in the way index is brought up to date.
    pub fn insert_node_to_way(&mut self, way_id: i64, node_id: i64, indices: &[usize])
        requires
            old(self)@.keyed(),
        ensures
            final(self)@.keyed(),
            final(self)@ == old(self)@.restored(way_id, node_id, indices@),
            old(self)@.node_index_exact() ==> final(self)@.node_index_exact(),
            old(self)@.way_index_exact() ==> final(self)@.way_index_exact(),
            counts_exact(old(self)@) && (old(self)@.ways.contains_key(way_id) ==> total_refs(
                old(self)@.ways,
                node_id,
            ) + landed(old(self)@.ways[way_id].node_refs.len(), indices@) <= 65535)
                ==> counts_exact(final(self)@),
    {
        let mut made: usize = 0;
        match ways_get(&self.ways, way_id) {
            Some(way) => {
                let mut refs = way.node_refs;
                let ghost intact = refs@;
                let mut k: usize = 0;
                while k < indices.len()
                    invariant
                        k <= indices.len(),
                        made <= k,
                        refs@ == with_node_at(intact, node_id, indices@.take(k as int)),
                        made == landed(intact.len(), indices@.take(k as int)),
                    decreases indices.len() - k,
                {
                    proof {
                        lemma_take_step(indices@, k as int);
                        lemma_landed(intact, node_id, indices@.take(k as int));
                    }
                    if indices[k] <= refs.len() {
                        refs.insert(indices[k], node_id);
                        made += 1;
                    }
                    k += 1;
                }
                assert(indices@.take(indices.len() as int) =~= indices@);
                if indices.len() > 0 {
                    let restored = OsmWay {
                        id: way.id,
                        node_refs: refs,
                        tags: way.tags,
                        render_feature: way.render_feature,
                        layer: way.layer,
                        is_area: way.is_area,
                    };
                    assert(restored.node_refs.len() == restored@.node_refs.len());
                    ways_put(&mut self.ways, restored);
                }
            },
            None => {},
        }
        if indices.len() > 0 {
            let c = self.ref_count(node_id);
            let raised: u16 = if made >= (65535 - c) as usize {
                65535
            } else {
                c + made as u16
            };
            counts_put(&mut self.node_ref_count, node_id, raised);
            assert(self@.ref_counts =~= old(self)@.ref_counts.insert(node_id, raised));
            self.update_way_rtree(way_id);
            proof {
                if old(self)@.way_index_exact() {
                    lemma_reindex_keeps_way_index(old(self)@, self@.ways, way_id, self@);
                }
                if counts_exact(old(self)@) && (old(self)@.ways.contains_key(way_id)
                    ==> total_refs(old(self)@.ways, node_id) + landed(
                    old(self)@.ways[way_id].node_refs.len(),
                    indices@,
                ) <= 65535) {
                    lemma_restore_keeps_counts(old(self)@, self@, way_id, node_id, indices@);
                }
            }
        }
    }

    /// Builds both indices anew from the maps: one point for each node, one
    /// bounding box for each way with a referenced node present. The indices
    /// no longer lag.
    pub fn rebuild_indices(&mut self)
        requires
            old(self)@.keyed(),
        ensures
            final(self)@.keyed(),
            final(self)@ == (StoreView {
                node_index: final(self)@.node_index,
                way_index: final(self)@.way_index,
                index_dirty: false,
                ..old(self)@
            }),
            final(self)@.node_index_exact(),
            final(self)@.way_index_exact(),
    {
        broadcast use vstd::multiset::group_multiset_axioms;

        let node_ids = nodes_ids(&self.nodes);
        let mut points: Vec<SpatialEntry> = Vec::new();
        let mut i: usize = 0;
        proof {
            points@.to_multiset_ensures();
        }
        while i < node_ids.len()
            invariant
                i <= node_ids.len(),
                self@ == old(self)@,
                node_ids@.no_duplicates(),
                node_ids@.to_set() == self@.nodes.dom(),
                forall|j: int| 0 <= j < points.len() ==> (#[trigger] points[j]).well_formed(),
                forall|e: SpatialEntry|
                    #![trigger points@.to_multiset().count(e)]
                    points@.to_multiset().count(e) == (if node_ids@.take(i as int).contains(e.id)
                        && e == SpatialEntry::point(
                        e.id,
                        self@.nodes[e.id].lon,
                        self@.nodes[e.id].lat,
                    ) {
                        1nat
                    } else {
                        0nat
                    }),
            decreases node_ids.len() - i,
        {
            let id = node_ids[i];
            let ghost sofar = points@;
            proof {
                lemma_take_step(node_ids@, i as int);
                lemma_not_in_prefix(node_ids@, i as int);
                lemma_push_contains(node_ids@.take(i as int), id);
            }
            match nodes_position(&self.nodes, id) {
                Some((lon, lat)) => {
                    let entry = SpatialEntry::at_point(id, lon, lat);
                    points.push(entry);
                    proof {
                        vstd::seq_lib::to_multiset_build(sofar, entry);
                    }
                },
                None => {},
            }
            i += 1;
        }
        let way_ids = ways_ids(&self.ways);
        let mut boxes: Vec<SpatialEntry> = Vec::new();
        let mut j: usize = 0;
        proof {
            boxes@.to_multiset_ensures();
            assert(node_ids@.take(node_ids.len() as int) =~= node_ids@);
        }
        while j < way_ids.len()
            invariant
                j <= way_ids.len(),
                self@ == old(self)@,
                self@.keyed(),
                way_ids@.no_duplicates(),
                way_ids@.to_set() == self@.ways.dom(),
                forall|k: int| 0 <= k < boxes.len() ==> (#[trigger] boxes[k]).well_formed(),
                forall|e: SpatialEntry|
                    #![trigger boxes@.to_multiset().count(e)]
                    boxes@.to_multiset().count(e) == (if way_ids@.take(j as int).contains(e.id)
                        && extent_of(self@.nodes, e.id, self@.ways[e.id].node_refs) == Some(e) {
                        1nat
                    } else {
                        0nat
                    }),
            decreases way_ids.len() - j,
        {
            let id = way_ids[j];
            let ghost sofar = boxes@;
            proof {
                lemma_take_step(way_ids@, j as int);
                lemma_not_in_prefix(way_ids@, j as int);
                lemma_push_contains(way_ids@.take(j as int), id);
            }
            match ways_get(&self.ways, id) {
                Some(way) => {
                    match self.compute_way_bbox(&way) {
                        Some(bbox) => {
                            boxes.push(bbox);
                            proof {
                                vstd::seq_lib::to_multiset_build(sofar, bbox);
                            }
                        },
                        None => {},
                    }
                },
                None => {},
            }
            j += 1;
        }
        proof {
            assert(way_ids@.take(way_ids.len() as int) =~= way_ids@);
        }
        self.node_index = index_bulk_load(points);
        self.way_index = index_bulk_load(boxes);
        self.index_dirty = false;
    }

    /// The envelope of all nodes, read from the map and not from the index;
    /// none where the store holds no node.
    pub fn get_bounds(&self) -> (bounds: Option<DataBounds>)
        ensures
            bounds is Some <==> exists|k: i64| self@.nodes.contains_key(k),
            bounds matches Some(b) ==> is_bounds_of(self@.nodes, b),
    {
        let ids = nodes_ids(&self.nodes);
        if ids.len() == 0 {
            return None;
        }
        let first = match nodes_position(&self.nodes, ids[0]) {
            Some(p) => p,
            None => {
                return None;
            },
        };
        let mut min_lon: i32 = first.0;
        let mut max_lon: i32 = first.0;
        let mut min_lat: i32 = first.1;
        let mut max_lat: i32 = first.1;
        let mut i: usize = 1;
        while i < ids.len()
            invariant
                1 <= i <= ids.len(),
                forall|k: i64| ids@.contains(k) <==> self@.nodes.contains_key(k),
                min_lon <= max_lon,
                min_lat <= max_lat,
                forall|j: int|
                    0 <= j < i ==> min_lon <= self@.nodes[#[trigger] ids@[j]].lon <= max_lon
                        && min_lat <= self@.nodes[ids@[j]].lat <= max_lat,
                exists|j: int| 0 <= j < i && self@.nodes[#[trigger] ids@[j]].lon == min_lon,
                exists|j: int| 0 <= j < i && self@.nodes[#[trigger] ids@[j]].lon == max_lon,
                exists|j: int| 0 <= j < i && self@.nodes[#[trigger] ids@[j]].lat == min_lat,
                exists|j: int| 0 <= j < i && self@.nodes[#[trigger] ids@[j]].lat == max_lat,
            decreases ids.len() - i,
        {
            assert(ids@.contains(ids@[i as int]));
            match nodes_position(&self.nodes, ids[i]) {
                Some((lon, lat)) => {
                    if lon < min_lon {
                        min_lon = lon;
                    }
                    if lon > max_lon {
                        max_lon = lon;
                    }
                    if lat < min_lat {
                        min_lat = lat;
                    }
                    if lat > max_lat {
                        max_lat = lat;
                    }
                },
                None => {},
            }
            i += 1;
        }
        let bounds = DataBounds {
            min_lon,
            min_lat,
            max_lon,
            max_lat,
            center_lon: midpoint_of(min_lon, max_lon),
            center_lat: midpoint_of(min_lat, max_lat),
        };
        proof {
            assert forall|k: i64| #[trigger] self@.nodes.contains_key(k) implies min_lon
                <= self@.nodes[k].lon <= max_lon && min_lat <= self@.nodes[k].lat <= max_lat by {
                let j = choose|j: int| 0 <= j < ids@.len() && ids@[j] == k;
            }
            let a = choose|j: int| 0 <= j < i && self@.nodes[#[trigger] ids@[j]].lon == min_lon;
            assert(ids@.contains(ids@[a]));
            let b = choose|j: int| 0 <= j < i && self@.nodes[#[trigger] ids@[j]].lon == max_lon;
            assert(ids@.contains(ids@[b]));
            let c = choose|j: int| 0 <= j < i && self@.nodes[#[trigger] ids@[j]].lat == min_lat;
            assert(ids@.contains(ids@[c]));
            let d = choose|j: int| 0 <= j < i && self@.nodes[#[trigger] ids@[j]].lat == max_lat;
            assert(ids@.contains(ids@[d]));
        }
        Some(bounds)
    }

    /// The nodes that stand under the identifiers of index entries.
    pub fn nodes_of_entries(&self, hits: &Vec<SpatialEntry>) -> (nodes: Vec<OsmNode>)
        ensures
            node_views(nodes@) == present_nodes(self@.nodes, hits@),
    {
        let mut nodes: Vec<OsmNode> = Vec::new();
        let mut i: usize = 0;
        while i < hits.len()
            invariant
                i <= hits.len(),
                node_views(nodes@) == present_nodes(self@.nodes, hits@.take(i as int)),
            decreases hits.len() - i,
        {
            proof {
                lemma_take_step(hits@, i as int);
            }
            match nodes_get(&self.nodes, hits[i].id) {
                Some(node) => {
                    nodes.push(node);
                },
                None => {},
            }
            i += 1;
        }
        assert(hits@.take(hits.len() as int) =~= hits@);
        nodes
    }

    /// The nodes of the index entries that share a point with the box, in
    /// the order in which the index hands its entries out.
    pub fn query_nodes_in_viewport(
        &self,
        min_lon: i32,
        min_lat: i32,
        max_lon: i32,
        max_lat: i32,
    ) -> (nodes: Vec<OsmNode>)
        ensures
            exists|hits: Seq<SpatialEntry>|
                #![trigger present_nodes(self@.nodes, hits)]
                hits.to_multiset() == self@.node_index.filter(
                    |e: SpatialEntry|
                        (QueryBox { lon_a: min_lon, lat_a: min_lat, lon_b: max_lon, lat_b: max_lat })
                            .touches(e),
                ) && node_views(nodes@) == present_nodes(self@.nodes, hits),
    {
        let query = QueryBox { lon_a: min_lon, lat_a: min_lat, lon_b: max_lon, lat_b: max_lat };
        let hits = index_touching(&self.node_index, query);
        let nodes = self.nodes_of_entries(&hits);
        nodes
    }

    /// The identifiers of the way index entries that share a point with the
    /// box, in the order in which the index hands its entries out.
    pub fn query_way_ids_in_viewport(
        &self,
        min_lon: i32,
        min_lat: i32,
        max_lon: i32,
        max_lat: i32,
    ) -> (ids: Vec<i64>)
        ensures
            exists|hits: Seq<SpatialEntry>|
                #![trigger entry_ids(hits)]
                hits.to_multiset() == self@.way_index.filter(
                    |e: SpatialEntry|
                        (QueryBox { lon_a: min_lon, lat_a: min_lat, lon_b: max_lon, lat_b: max_lat })
                            .touches(e),
                ) && ids@ == entry_ids(hits),
    {
        let query = QueryBox { lon_a: min_lon, lat_a: min_lat, lon_b: max_lon, lat_b: max_lat };
        let hits = index_touching(&self.way_index, query);
        let ids = ids_of_entries(&hits);
        ids
    }

    /// The entries of the way index that share a point with the box, in the
    /// order in which the index hands them out.
    pub fn way_entries_touching(
        &self,
        min_lon: i32,
        min_lat: i32,
        max_lon: i32,
        max_lat: i32,
    ) -> (hits: Vec<SpatialEntry>)
        ensures
            hits@.to_multiset() == self@.way_index.filter(
                |e: SpatialEntry|
                    (QueryBox { lon_a: min_lon, lat_a: min_lat, lon_b: max_lon, lat_b: max_lat })
                        .touches(e),
            ),
    {
        let query = QueryBox { lon_a: min_lon, lat_a: min_lat, lon_b: max_lon, lat_b: max_lat };
        index_touching(&self.way_index, query)
    }

    /// The entries of the node index that lie wholly inside the box, in the
    /// order in which the index hands them out.
    pub fn node_entries_inside(
        &self,
        min_lon: i32,
        min_lat: i32,
        max_lon: i32,
        max_lat: i32,
    ) -> (hits: Vec<SpatialEntry>)
        ensures
            hits@.to_multiset() == self@.node_index.filter(
                |e: SpatialEntry|
                    (QueryBox { lon_a: min_lon, lat_a: min_lat, lon_b: max_lon, lat_b: max_lat })
                        .holds(e),
            ),
    {
        let query = QueryBox { lon_a: min_lon, lat_a: min_lat, lon_b: max_lon, lat_b: max_lat };
        index_inside(&self.node_index, query)
    }

    /// Gives a way new tags, with the feature, the layer and the area mark
    /// derived from them. Answers whether the way is there.
    pub fn retag_way(
        &mut self,
        way_id: i64,
        tags: Vec<(String, String)>,
        render_feature: u16,
        layer: i8,
        is_area: bool,
    ) -> (changed: bool)
        requires
            old(self)@.keyed(),
        ensures
            final(self)@.keyed(),
            changed == old(self)@.ways.contains_key(way_id),
            final(self)@ == (if changed {
                StoreView {
                    ways: old(self)@.ways.insert(
                        way_id,
                        WayView {
                            tags: tags_view(tags@),
                            render_feature,
                            layer,
                            is_area,
                            ..old(self)@.ways[way_id]
                        },
                    ),
                    ..old(self)@
                }
            } else {
                old(self)@
            }),
    {
        match ways_get(&self.ways, way_id) {
            Some(way) => {
                let retagged = OsmWay {
                    id: way.id,
                    node_refs: way.node_refs,
                    tags,
                    render_feature,
                    layer,
                    is_area,
                };
                ways_put(&mut self.ways, retagged);
                true
            },
            None => false,
        }
    }

    /// Gives a node new tags. Answers whether the node is there.
    pub fn retag_node(&mut self, node_id: i64, tags: Vec<(String, String)>) -> (changed: bool)
        requires
            old(self)@.keyed(),
        ensures
            final(self)@.keyed(),
            changed == old(self)@.nodes.contains_key(node_id),
            final(self)@ == (if changed {
                StoreView {
                    nodes: old(self)@.nodes.insert(
                        node_id,
                        NodeView { tags: tags_view(tags@), ..old(self)@.nodes[node_id] },
                    ),
                    ..old(self)@
                }
            } else {
                old(self)@
            }),
    {
        match nodes_get(&self.nodes, node_id) {
            Some(node) => {
                let retagged = OsmNode { id: node.id, lat: node.lat, lon: node.lon, tags };
                nodes_put(&mut self.nodes, retagged);
                true
            },
            None => false,
        }
    }

    /// The identifiers of all relations, each once, in no particular order.
    pub fn relation_ids(&self) -> (ids: Vec<i64>)
        ensures
            ids@.no_duplicates(),
            ids@.to_set() == self@.relations.dom(),
    {
        relations_ids(&self.relations)
    }

    /// Whether the way is there and has at least two node references.
    pub fn is_way_valid(&self, way_id: i64) -> (valid: bool)
        ensures
            valid == (self@.ways.contains_key(way_id) && self@.ways[way_id].node_refs.len() >= 2),
    {
        match ways_get(&self.ways, way_id) {
            Some(w) => w.node_refs.len() >= 2,
            None => false,
        }
    }

    /// The entries of the node index, in no particular order.
    pub fn node_index(&self) -> (entries: Vec<SpatialEntry>)
        ensures
            entries@.to_multiset() == self@.node_index,
    {
        index_all(&self.node_index)
    }

    /// The entries of the way index, in no particular order.
    pub fn way_index(&self) -> (entries: Vec<SpatialEntry>)
        ensures
            entries@.to_multiset() == self@.way_index,
    {
        index_all(&self.way_index)
    }
}

impl Default for OsmStore {
    fn default() -> (store: Self)
        ensures
            store@.keyed(),
            store@.nodes == Map::<i64, NodeView>::empty(),
            store@.ways == Map::<i64, WayView>::empty(),
            store@.relations == Map::<i64, RelationView>::empty(),
            store@.node_index == Multiset::<SpatialEntry>::empty(),
            store@.way_index == Multiset::<SpatialEntry>::empty(),
            store@.next_local_id == -1,
    {
        OsmStore::new()
    }
}

/// How many entities a store holds.
#[derive(Debug, Clone, Copy)]
pub struct StoreStats {
    pub node_count: usize,
    pub way_count: usize,
    pub relation_count: usize,
}

} // verus!
