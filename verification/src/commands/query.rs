//! Details of single features.

use crate::osm_store::{
    members_view, MemberType, MemberView, OsmRelation, OsmStore, RelationView, StoreView,
};
use crate::seq_facts::lemma_take_step;
use crate::tags::{str_eq, tags_view, TagsView};
use crate::types::{
    parents_view, FeatureDetails, NodeDetails, ParentRelation, ParentRelationView, WayDetails,
};
use crate::AppState;
use vstd::prelude::*;

verus! {

/// The value of the first tag whose key is `key`, if there is one.
pub open spec fn first_value(tags: TagsView, key: Seq<char>) -> Option<Seq<char>>
    decreases tags.len(),
{
    if tags.len() == 0 {
        None
    } else if tags.first().0 == key {
        Some(tags.first().1)
    } else {
        first_value(tags.drop_first(), key)
    }
}

/// The role of the first member that is the element, if there is one.
pub open spec fn role_in(members: Seq<MemberView>, member_type: MemberType, member_id: i64) -> Option<
    Seq<char>,
>
    decreases members.len(),
{
    if members.len() == 0 {
        None
    } else if members.first().member_type == member_type && members.first().ref_id == member_id {
        Some(members.first().role)
    } else {
        role_in(members.drop_first(), member_type, member_id)
    }
}

/// Those relations of the list that have the element as a member, in
/// order, each with the role of the element and with its own type and name.
pub open spec fn parents_among(
    relations: Map<i64, RelationView>,
    ids: Seq<i64>,
    member_type: MemberType,
    member_id: i64,
) -> Seq<ParentRelationView>
    decreases ids.len(),
{
    if ids.len() == 0 {
        Seq::empty()
    } else {
        let rest = parents_among(relations, ids.drop_last(), member_type, member_id);
        let id = ids.last();
        if relations.contains_key(id) && role_in(relations[id].members, member_type, member_id)
            is Some {
            rest.push(
                ParentRelationView {
                    id: relations[id].id,
                    role: role_in(relations[id].members, member_type, member_id)->0,
                    relation_type: first_value(relations[id].tags, "type"@),
                    name: first_value(relations[id].tags, "name"@),
                },
            )
        } else {
            rest
        }
    }
}

fn find_first(tags: &Vec<(String, String)>, key: &str) -> (found: Option<String>)
    ensures
        crate::types::text_view(found) == first_value(tags_view(tags@), key@),
{
    let ghost all = tags_view(tags@);
    let mut i: usize = 0;
    assert(all.skip(0) =~= all);
    while i < tags.len()
        invariant
            i <= tags.len(),
            all == tags_view(tags@),
            first_value(all, key@) == first_value(all.skip(i as int), key@),
        decreases tags.len() - i,
    {
        assert(all.skip(i as int).drop_first() =~= all.skip(i + 1));
        if str_eq(tags[i].0.as_str(), key) {
            return Some(tags[i].1.clone());
        }
        i += 1;
    }
    None
}

fn find_role(relation: &OsmRelation, member_type: MemberType, member_id: i64) -> (found: Option<
    String,
>)
    ensures
        crate::types::text_view(found) == role_in(relation@.members, member_type, member_id),
{
    let ghost all = members_view(relation.members@);
    let mut i: usize = 0;
    assert(all.skip(0) =~= all);
    while i < relation.members.len()
        invariant
            i <= relation.members.len(),
            all == members_view(relation.members@),
            role_in(all, member_type, member_id) == role_in(
                all.skip(i as int),
                member_type,
                member_id,
            ),
        decreases relation.members.len() - i,
    {
        let member = &relation.members[i];
        assert(all.skip(i as int).drop_first() =~= all.skip(i + 1));
        if member.member_type == member_type && member.ref_id == member_id {
            return Some(member.role.clone());
        }
        i += 1;
    }
    None
}

/// Finds, among the relations of a list, those that have the element as a member.
pub fn parent_relations_among(
    store: &OsmStore,
    ids: &Vec<i64>,
    member_type: MemberType,
    member_id: i64,
) -> (parents: Vec<ParentRelation>)
    requires
        store@.keyed(),
    ensures
        parents_view(parents@) == parents_among(store@.relations, ids@, member_type, member_id),
{
    let mut parents: Vec<ParentRelation> = Vec::new();
    let mut i: usize = 0;
    while i < ids.len()
        invariant
            i <= ids.len(),
            store@.keyed(),
            parents_view(parents@) == parents_among(
                store@.relations,
                ids@.take(i as int),
                member_type,
                member_id,
            ),
        decreases ids.len() - i,
    {
        proof {
            lemma_take_step(ids@, i as int);
        }
        match store.relation(ids[i]) {
            Some(relation) => {
                match find_role(&relation, member_type, member_id) {
                    Some(role) => {
                        let parent = ParentRelation {
                            id: relation.id,
                            role,
                            relation_type: find_first(&relation.tags, "type"),
                            name: find_first(&relation.tags, "name"),
                        };
                        parents.push(parent);
                    },
                    None => {},
                }
            },
            None => {},
        }
        i += 1;
    }
    assert(ids@.take(ids.len() as int) =~= ids@);
    parents
}

/// Whether `parents` lists the relations that have the element as a
/// member, in some order of the relations of the store.
pub open spec fn are_parents(
    store: StoreView,
    member_type: MemberType,
    member_id: i64,
    parents: Seq<ParentRelationView>,
) -> bool {
    exists|ids: Seq<i64>|
        #![trigger parents_among(store.relations, ids, member_type, member_id)]
        ids.no_duplicates() && ids.to_set() == store.relations.dom() && parents == parents_among(
            store.relations,
            ids,
            member_type,
            member_id,
        )
}

/// Finds the relations that have the element as a member.
pub fn find_parent_relations(store: &OsmStore, member_type: MemberType, member_id: i64) -> (parents:
    Vec<ParentRelation>)
    requires
        store@.keyed(),
    ensures
        are_parents(store@, member_type, member_id, parents_view(parents@)),
{
    let ids = store.relation_ids();
    let parents = parent_relations_among(store, &ids, member_type, member_id);
    parents
}

/// What is known of a node.
pub fn get_node_details(node_id: i64, state: &AppState) -> (details: FeatureDetails)
    requires
        state.store@.keyed(),
    ensures
        match details {
            FeatureDetails::Node(d) => {
                &&& state.store@.nodes.contains_key(node_id)
                &&& d.id == node_id
                &&& d.lon == state.store@.nodes[node_id].lon
                &&& d.lat == state.store@.nodes[node_id].lat
                &&& tags_view(d.tags@) == state.store@.nodes[node_id].tags
                &&& d.ref_count == state.store@.ref_counts[node_id]
                &&& are_parents(
                    state.store@,
                    MemberType::Node,
                    node_id,
                    parents_view(d.parent_relations@),
                )
            },
            FeatureDetails::Way(_) => false,
            FeatureDetails::NotFound => !state.store@.nodes.contains_key(node_id),
        },
{
    match state.store.node(node_id) {
        Some(node) => {
            let ref_count = state.store.ref_count(node_id);
            let parent_relations = find_parent_relations(&state.store, MemberType::Node, node_id);
            FeatureDetails::Node(
                NodeDetails {
                    id: node.id,
                    lon: node.lon,
                    lat: node.lat,
                    tags: node.tags,
                    ref_count,
                    parent_relations,
                },
            )
        },
        None => FeatureDetails::NotFound,
    }
}

/// What is known of a way.
pub fn get_way_details(way_id: i64, state: &AppState) -> (details: FeatureDetails)
    requires
        state.store@.keyed(),
    ensures
        match details {
            FeatureDetails::Way(d) => {
                &&& state.store@.ways.contains_key(way_id)
                &&& d.id == way_id
                &&& tags_view(d.tags@) == state.store@.ways[way_id].tags
                &&& d.node_count == state.store@.ways[way_id].node_refs.len()
                &&& d.is_area == state.store@.ways[way_id].is_area
                &&& d.render_feature == state.store@.ways[way_id].render_feature
                &&& d.layer == state.store@.ways[way_id].layer
                &&& are_parents(
                    state.store@,
                    MemberType::Way,
                    way_id,
                    parents_view(d.parent_relations@),
                )
            },
            FeatureDetails::Node(_) => false,
            FeatureDetails::NotFound => !state.store@.ways.contains_key(way_id),
        },
{
    match state.store.way(way_id) {
        Some(way) => {
            let parent_relations = find_parent_relations(&state.store, MemberType::Way, way_id);
            FeatureDetails::Way(
                WayDetails {
                    id: way.id,
                    tags: way.tags,
                    node_count: way.node_refs.len(),
                    is_area: way.is_area,
                    render_feature: way.render_feature,
                    layer: way.layer,
                    parent_relations,
                },
            )
        },
        None => FeatureDetails::NotFound,
    }
}

} // verus!
