//! Ingest of decoded OSM elements into the store.
//!
//! Reading and decoding a file is the caller's part; this module takes each
//! element as plain values, derives what the store keeps beside them, and
//! puts it into the store.

use crate::consistency_laws::consistent;
use crate::count_laws::{counts_exact, room_for, total_refs};
use crate::osm_store::{
    clone_ids, counts_raised, members_view, MemberView, NodeView, OsmNode, OsmRelation, OsmStore,
    OsmWay, RelationMember, RelationView, StoreView, WayView,
};
use crate::polygon_assembler::{is_area, is_area_way};
use crate::render_feature::{feature_of_tags, layer_of_tags, parse_tags};
use crate::seq_facts::lemma_take_step;
use crate::tags::{clone_tags, tags_view, TagsView};
use vstd::prelude::*;

verus! {

/// How much was ingested.
#[derive(Debug, Clone, Copy, PartialEq, Eq, Structural)]
pub struct ParseProgress {
    pub nodes_parsed: u64,
    pub ways_parsed: u64,
    pub relations_parsed: u64,
    pub bytes_read: u64,
    pub total_bytes: u64,
}

/// One decoded element. A position is in units of 1e-7 degree.
#[derive(Debug, Clone)]
pub enum RawElement {
    Node { id: i64, lat: i32, lon: i32, tags: Vec<(String, String)> },
    Way { id: i64, node_refs: Vec<i64>, tags: Vec<(String, String)> },
    Relation { id: i64, members: Vec<RelationMember>, tags: Vec<(String, String)> },
}

/// The mathematical value of a decoded element.
pub enum RawElementView {
    Node { id: i64, lat: i32, lon: i32, tags: TagsView },
    Way { id: i64, node_refs: Seq<i64>, tags: TagsView },
    Relation { id: i64, members: Seq<MemberView>, tags: TagsView },
}

impl View for RawElement {
    type V = RawElementView;

    open spec fn view(&self) -> RawElementView {
        match self {
            RawElement::Node { id, lat, lon, tags } => RawElementView::Node {
                id: *id,
                lat: *lat,
                lon: *lon,
                tags: tags_view(tags@),
            },
            RawElement::Way { id, node_refs, tags } => RawElementView::Way {
                id: *id,
                node_refs: node_refs@,
                tags: tags_view(tags@),
            },
            RawElement::Relation { id, members, tags } => RawElementView::Relation {
                id: *id,
                members: members_view(members@),
                tags: tags_view(tags@),
            },
        }
    }
}

/// The mathematical values of a list of decoded elements.
pub open spec fn elements_view(elements: Seq<RawElement>) -> Seq<RawElementView> {
    Seq::new(elements.len(), |i: int| elements[i]@)
}

/// The way that is kept for a decoded way: with the feature and the layer of
/// its tags, and marked as an area where it is one.
pub open spec fn way_of(id: i64, node_refs: Seq<i64>, tags: TagsView) -> WayView {
    WayView {
        id,
        node_refs,
        tags,
        render_feature: feature_of_tags(tags),
        layer: layer_of_tags(tags),
        is_area: is_area(tags, node_refs),
    }
}

/// The store after one element was ingested: the entity stands in its map,
/// the references of a way are counted in place of those of the way that it
/// replaces, and the indices are marked as lagging.
pub open spec fn ingested(state: StoreView, element: RawElementView) -> StoreView {
    match element {
        RawElementView::Node { id, lat, lon, tags } => StoreView {
            nodes: state.nodes.insert(id, NodeView { id, lat, lon, tags }),
            index_dirty: true,
            ..state
        },
        RawElementView::Way { id, node_refs, tags } => StoreView {
            ways: state.ways.insert(id, way_of(id, node_refs, tags)),
            ref_counts: counts_raised(state.without_way(id).ref_counts, node_refs),
            index_dirty: true,
            ..state
        },
        RawElementView::Relation { id, members, tags } => StoreView {
            relations: state.relations.insert(id, RelationView { id, members, tags }),
            index_dirty: true,
            ..state
        },
    }
}

/// The store after the elements were ingested one after the other.
pub open spec fn ingested_all(state: StoreView, elements: Seq<RawElementView>) -> StoreView
    decreases elements.len(),
{
    if elements.len() == 0 {
        state
    } else {
        ingested(ingested_all(state, elements.drop_last()), elements.last())
    }
}

/// One more where there is room for it.
pub open spec fn counted(count: u64) -> u64 {
    if count < u64::MAX {
        (count + 1) as u64
    } else {
        count
    }
}

/// The progress after one element was ingested.
pub open spec fn progressed(progress: ParseProgress, element: RawElementView) -> ParseProgress {
    match element {
        RawElementView::Node { .. } => ParseProgress {
            nodes_parsed: counted(progress.nodes_parsed),
            ..progress
        },
        RawElementView::Way { .. } => ParseProgress {
            ways_parsed: counted(progress.ways_parsed),
            ..progress
        },
        RawElementView::Relation { .. } => ParseProgress {
            relations_parsed: counted(progress.relations_parsed),
            ..progress
        },
    }
}

/// The progress after the elements were ingested one after the other.
pub open spec fn progressed_all(progress: ParseProgress, elements: Seq<RawElementView>) -> ParseProgress
    decreases elements.len(),
{
    if elements.len() == 0 {
        progress
    } else {
        progressed(progressed_all(progress, elements.drop_last()), elements.last())
    }
}

fn count_one(count: u64) -> (next: u64)
    ensures
        next == counted(count),
{
    if count < u64::MAX {
        count + 1
    } else {
        count
    }
}

fn clone_members(members: &Vec<RelationMember>) -> (copy: Vec<RelationMember>)
    ensures
        members_view(copy@) == members_view(members@),
{
    let mut copy: Vec<RelationMember> = Vec::new();
    let mut i: usize = 0;
    while i < members.len()
        invariant
            i <= members.len(),
            copy.len() == i,
            forall|j: int| 0 <= j < i ==> copy@[j]@ == members@[j]@,
        decreases members.len() - i,
    {
        let member = &members[i];
        copy.push(
            RelationMember {
                member_type: member.member_type,
                ref_id: member.ref_id,
                role: member.role.clone(),
            },
        );
        i += 1;
    }
    copy
}

/// Ingests one element: builds the entity with what is derived from its
/// tags, puts it into the store and counts it.
pub fn ingest_element(store: &mut OsmStore, progress: &mut ParseProgress, element: &RawElement)
    requires
        old(store)@.keyed(),
    ensures
        final(store)@.keyed(),
        final(store)@ == ingested(old(store)@, element@),
        *final(progress) == progressed(*old(progress), element@),
        counts_exact(old(store)@) && (element@ matches RawElementView::Way { id, node_refs, .. }
            ==> room_for(old(store)@.without_way(id), node_refs)) ==> counts_exact(final(store)@),
{
    match element {
        RawElement::Node { id, lat, lon, tags } => {
            store.insert_node(OsmNode { id: *id, lat: *lat, lon: *lon, tags: clone_tags(tags) });
            progress.nodes_parsed = count_one(progress.nodes_parsed);
            assert(counts_exact(old(store)@) ==> counts_exact(store@));
        },
        RawElement::Way { id, node_refs, tags } => {
            let parsed = parse_tags(tags.as_slice());
            let is_area = is_area_way(tags.as_slice(), node_refs.as_slice());
            store.insert_way(
                OsmWay {
                    id: *id,
                    node_refs: clone_ids(node_refs),
                    tags: clone_tags(tags),
                    render_feature: parsed.feature,
                    layer: parsed.layer,
                    is_area,
                },
            );
            progress.ways_parsed = count_one(progress.ways_parsed);
        },
        RawElement::Relation { id, members, tags } => {
            store.insert_relation(
                OsmRelation { id: *id, members: clone_members(members), tags: clone_tags(tags) },
            );
            progress.relations_parsed = count_one(progress.relations_parsed);
            assert(counts_exact(old(store)@) ==> counts_exact(store@));
        },
    }
}

/// Whether every way of the list leaves every count within 16 bits at its
/// turn.
pub open spec fn ways_have_room(state: StoreView, elements: Seq<RawElementView>) -> bool
    decreases elements.len(),
{
    if elements.len() == 0 {
        true
    } else {
        let sofar = ingested_all(state, elements.drop_last());
        &&& ways_have_room(state, elements.drop_last())
        &&& elements.last() matches RawElementView::Way { id, node_refs, .. } ==> room_for(
            sofar.without_way(id),
            node_refs,
        )
    }
}

/// No progress.
pub open spec fn no_progress() -> ParseProgress {
    ParseProgress {
        nodes_parsed: 0,
        ways_parsed: 0,
        relations_parsed: 0,
        bytes_read: 0,
        total_bytes: 0,
    }
}

/// Ingests the elements of a file one after the other and then builds both
/// indices, once.
pub fn parse_pbf_file(elements: &Vec<RawElement>, store: &mut OsmStore) -> (progress: ParseProgress)
    requires
        old(store)@.keyed(),
    ensures
        final(store)@.keyed(),
        final(store)@ == (StoreView {
            node_index: final(store)@.node_index,
            way_index: final(store)@.way_index,
            index_dirty: false,
            ..ingested_all(old(store)@, elements_view(elements@))
        }),
        final(store)@.node_index_exact(),
        final(store)@.way_index_exact(),
        progress == progressed_all(no_progress(), elements_view(elements@)),
        counts_exact(old(store)@) && ways_have_room(old(store)@, elements_view(elements@))
            ==> consistent(final(store)@),
{
    let ghost all = elements_view(elements@);
    let mut progress = ParseProgress {
        nodes_parsed: 0,
        ways_parsed: 0,
        relations_parsed: 0,
        bytes_read: 0,
        total_bytes: 0,
    };
    let mut i: usize = 0;
    while i < elements.len()
        invariant
            i <= elements.len(),
            all == elements_view(elements@),
            store@.keyed(),
            store@ == ingested_all(old(store)@, all.take(i as int)),
            progress == progressed_all(no_progress(), all.take(i as int)),
            counts_exact(old(store)@) && ways_have_room(old(store)@, all.take(i as int))
                ==> counts_exact(store@),
        decreases elements.len() - i,
    {
        proof {
            lemma_take_step(all, i as int);
        }
        ingest_element(store, &mut progress, &elements[i]);
        i += 1;
    }
    assert(all.take(elements.len() as int) =~= all);
    let ghost ingested = store@;
    store.rebuild_indices();
    proof {
        if counts_exact(ingested) {
            assert forall|n: i64| #[trigger] store@.ref_counts[n] == total_refs(store@.ways, n) by {
                assert(ingested.ref_counts[n] == total_refs(ingested.ways, n));
            }
        }
    }
    progress
}

/// Ingests the elements that the workers decoded, in the order in which
/// they are handed over, and then builds both indices, once.
pub fn parse_pbf_parallel(elements: &Vec<RawElement>, store: &mut OsmStore) -> (progress:
    ParseProgress)
    requires
        old(store)@.keyed(),
    ensures
        final(store)@.keyed(),
        final(store)@ == (StoreView {
            node_index: final(store)@.node_index,
            way_index: final(store)@.way_index,
            index_dirty: false,
            ..ingested_all(old(store)@, elements_view(elements@))
        }),
        final(store)@.node_index_exact(),
        final(store)@.way_index_exact(),
        progress == progressed_all(no_progress(), elements_view(elements@)),
        counts_exact(old(store)@) && ways_have_room(old(store)@, elements_view(elements@))
            ==> consistent(final(store)@),
{
    parse_pbf_file(elements, store)
}

} // verus!
