//! The concurrent maps that hold the entities, keyed by identifier.

use crate::osm_store::{NodeView, OsmNode, OsmRelation, OsmWay, RelationView, WayView};
use dashmap::DashMap;
use vstd::prelude::*;

verus! {

#[verifier::external_type_specification]
#[verifier::external_body]
#[verifier::reject_recursive_types(K)]
#[verifier::reject_recursive_types(V)]
#[verifier::reject_recursive_types(S)]
pub struct ExDashMap<K, V, S>(DashMap<K, V, S>);

/// The nodes that a map holds, by identifier.
pub uninterp spec fn node_entries(m: DashMap<i64, OsmNode>) -> Map<i64, NodeView>;

/// The ways that a map holds, by identifier.
pub uninterp spec fn way_entries(m: DashMap<i64, OsmWay>) -> Map<i64, WayView>;

/// The relations that a map holds, by identifier.
pub uninterp spec fn relation_entries(m: DashMap<i64, OsmRelation>) -> Map<i64, RelationView>;

/// The counts that a map holds, by node identifier.
pub uninterp spec fn count_entries(m: DashMap<i64, u16>) -> Map<i64, u16>;

/// `DashMap::new`: a map that holds nothing.
#[verifier::external_body]
pub(crate) fn nodes_new() -> (m: DashMap<i64, OsmNode>)
    ensures
        node_entries(m).dom() == Set::<i64>::empty(),
{
    DashMap::new()
}

/// `DashMap::get`, with a copy of what it refers to: the node under the key,
/// if the map holds one.
#[verifier::external_body]
pub(crate) fn nodes_get(m: &DashMap<i64, OsmNode>, id: i64) -> (found: Option<OsmNode>)
    ensures
        found is Some == node_entries(*m).contains_key(id),
        found matches Some(n) ==> n@ == node_entries(*m)[id],
{
    m.get(&id).map(|n| n.value().clone())
}

/// `DashMap::get`, with the position of what it refers to: longitude and
/// latitude of the node under the key, if the map holds one.
#[verifier::external_body]
pub(crate) fn nodes_position(m: &DashMap<i64, OsmNode>, id: i64) -> (found: Option<(i32, i32)>)
    ensures
        found is Some == node_entries(*m).contains_key(id),
        found matches Some(p) ==> p.0 == node_entries(*m)[id].lon && p.1 == node_entries(*m)[id].lat,
{
    m.get(&id).map(|n| (n.lon, n.lat))
}

/// `DashMap::insert`: the node stands under its identifier, in place of what
/// stood there.
#[verifier::external_body]
pub(crate) fn nodes_put(m: &mut DashMap<i64, OsmNode>, node: OsmNode)
    ensures
        node_entries(*final(m)) == node_entries(*old(m)).insert(node.id, node@),
{
    m.insert(node.id, node);
}

/// `DashMap::remove`: the key leaves the map; the result is what stood under it.
#[verifier::external_body]
pub(crate) fn nodes_take(m: &mut DashMap<i64, OsmNode>, id: i64) -> (taken: Option<OsmNode>)
    ensures
        node_entries(*final(m)) == node_entries(*old(m)).remove(id),
        taken is Some == node_entries(*old(m)).contains_key(id),
        taken matches Some(n) ==> n@ == node_entries(*old(m))[id],
{
    m.remove(&id).map(|pair| pair.1)
}

/// `DashMap::len`: the number of keys.
#[verifier::external_body]
pub(crate) fn nodes_len(m: &DashMap<i64, OsmNode>) -> (count: usize)
    ensures
        count == node_entries(*m).dom().len(),
{
    m.len()
}

/// `DashMap::iter`, with the key of each entry: every key once, in an order
/// that is not specified.
#[verifier::external_body]
pub(crate) fn nodes_ids(m: &DashMap<i64, OsmNode>) -> (ids: Vec<i64>)
    ensures
        ids@.no_duplicates(),
        ids@.to_set() == node_entries(*m).dom(),
{
    m.iter().map(|entry| *entry.key()).collect()
}

/// `DashMap::new`: a map that holds nothing.
#[verifier::external_body]
pub(crate) fn ways_new() -> (m: DashMap<i64, OsmWay>)
    ensures
        way_entries(m).dom() == Set::<i64>::empty(),
{
    DashMap::new()
}

/// `DashMap::get`, with a copy of what it refers to: the way under the key,
/// if the map holds one.
#[verifier::external_body]
pub(crate) fn ways_get(m: &DashMap<i64, OsmWay>, id: i64) -> (found: Option<OsmWay>)
    ensures
        found is Some == way_entries(*m).contains_key(id),
        found matches Some(w) ==> w@ == way_entries(*m)[id],
{
    m.get(&id).map(|w| w.value().clone())
}

/// `DashMap::insert`: the way stands under its identifier, in place of what
/// stood there.
#[verifier::external_body]
pub(crate) fn ways_put(m: &mut DashMap<i64, OsmWay>, way: OsmWay)
    ensures
        way_entries(*final(m)) == way_entries(*old(m)).insert(way.id, way@),
{
    m.insert(way.id, way);
}

/// `DashMap::remove`: the key leaves the map; the result is what stood under it.
#[verifier::external_body]
pub(crate) fn ways_take(m: &mut DashMap<i64, OsmWay>, id: i64) -> (taken: Option<OsmWay>)
    ensures
        way_entries(*final(m)) == way_entries(*old(m)).remove(id),
        taken is Some == way_entries(*old(m)).contains_key(id),
        taken matches Some(w) ==> w@ == way_entries(*old(m))[id],
{
    m.remove(&id).map(|pair| pair.1)
}

/// `DashMap::len`: the number of keys.
#[verifier::external_body]
pub(crate) fn ways_len(m: &DashMap<i64, OsmWay>) -> (count: usize)
    ensures
        count == way_entries(*m).dom().len(),
{
    m.len()
}

/// `DashMap::iter`, with the key of each entry: every key once, in an order
/// that is not specified.
#[verifier::external_body]
pub(crate) fn ways_ids(m: &DashMap<i64, OsmWay>) -> (ids: Vec<i64>)
    ensures
        ids@.no_duplicates(),
        ids@.to_set() == way_entries(*m).dom(),
{
    m.iter().map(|entry| *entry.key()).collect()
}

/// `DashMap::new`: a map that holds nothing.
#[verifier::external_body]
pub(crate) fn relations_new() -> (m: DashMap<i64, OsmRelation>)
    ensures
        relation_entries(m).dom() == Set::<i64>::empty(),
{
    DashMap::new()
}

/// `DashMap::get`, with a copy of what it refers to: the relation under the
/// key, if the map holds one.
#[verifier::external_body]
pub(crate) fn relations_get(m: &DashMap<i64, OsmRelation>, id: i64) -> (found: Option<OsmRelation>)
    ensures
        found is Some == relation_entries(*m).contains_key(id),
        found matches Some(r) ==> r@ == relation_entries(*m)[id],
{
    m.get(&id).map(|r| r.value().clone())
}

/// `DashMap::insert`: the relation stands under its identifier, in place of
/// what stood there.
#[verifier::external_body]
pub(crate) fn relations_put(m: &mut DashMap<i64, OsmRelation>, relation: OsmRelation)
    ensures
        relation_entries(*final(m)) == relation_entries(*old(m)).insert(relation.id, relation@),
{
    m.insert(relation.id, relation);
}

/// `DashMap::len`: the number of keys.
#[verifier::external_body]
pub(crate) fn relations_len(m: &DashMap<i64, OsmRelation>) -> (count: usize)
    ensures
        count == relation_entries(*m).dom().len(),
{
    m.len()
}

/// `DashMap::iter`, with the key of each entry: every key once, in an order
/// that is not specified.
#[verifier::external_body]
pub(crate) fn relations_ids(m: &DashMap<i64, OsmRelation>) -> (ids: Vec<i64>)
    ensures
        ids@.no_duplicates(),
        ids@.to_set() == relation_entries(*m).dom(),
{
    m.iter().map(|entry| *entry.key()).collect()
}

/// `DashMap::new`: a map that holds nothing.
#[verifier::external_body]
pub(crate) fn counts_new() -> (m: DashMap<i64, u16>)
    ensures
        count_entries(m).dom() == Set::<i64>::empty(),
{
    DashMap::new()
}

/// `DashMap::get`, with a copy of what it refers to: the count under the key,
/// if the map holds one.
#[verifier::external_body]
pub(crate) fn counts_get(m: &DashMap<i64, u16>, id: i64) -> (found: Option<u16>)
    ensures
        found is Some == count_entries(*m).contains_key(id),
        found matches Some(c) ==> c == count_entries(*m)[id],
{
    m.get(&id).map(|c| *c)
}

/// `DashMap::insert`: the count stands under the key, in place of what stood there.
#[verifier::external_body]
pub(crate) fn counts_put(m: &mut DashMap<i64, u16>, id: i64, count: u16)
    ensures
        count_entries(*final(m)) == count_entries(*old(m)).insert(id, count),
{
    m.insert(id, count);
}

} // verus!
