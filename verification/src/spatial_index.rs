//! Spatial index over axis-aligned boxes, backed by an R*-tree.

use rstar::primitives::{GeomWithData, Rectangle};
use rstar::{RTree, AABB};
use vstd::multiset::Multiset;
use vstd::prelude::*;
use vstd::seq_lib::*;

verus! {

/// The only payload of either index: an identifier and its bounding box.
/// Coordinates are in units of 1e-7 degree.
#[derive(Clone, Copy, Debug, PartialEq, Eq, Structural)]
pub struct SpatialEntry {
    pub id: i64,
    pub min_lon: i32,
    pub min_lat: i32,
    pub max_lon: i32,
    pub max_lat: i32,
}

impl SpatialEntry {
    /// The lower corner is not above the upper one.
    pub open spec fn well_formed(self) -> bool {
        self.min_lon <= self.max_lon && self.min_lat <= self.max_lat
    }

    /// The entry of a point.
    pub open spec fn point(id: i64, lon: i32, lat: i32) -> SpatialEntry {
        SpatialEntry { id, min_lon: lon, min_lat: lat, max_lon: lon, max_lat: lat }
    }

    /// Builds the entry of a point.
    pub fn at_point(id: i64, lon: i32, lat: i32) -> (entry: SpatialEntry)
        ensures
            entry == SpatialEntry::point(id, lon, lat),
            entry.well_formed(),
    {
        SpatialEntry { id, min_lon: lon, min_lat: lat, max_lon: lon, max_lat: lat }
    }
}

/// A query box, given by two opposite corners in any order.
#[derive(Clone, Copy, Debug, PartialEq, Eq, Structural)]
pub struct QueryBox {
    pub lon_a: i32,
    pub lat_a: i32,
    pub lon_b: i32,
    pub lat_b: i32,
}

/// The smaller of two coordinates.
pub open spec fn lower_of(a: i32, b: i32) -> i32 {
    if a < b {
        a
    } else {
        b
    }
}

/// The larger of two coordinates.
pub open spec fn upper_of(a: i32, b: i32) -> i32 {
    if a > b {
        a
    } else {
        b
    }
}

impl QueryBox {
    /// Whether the box and the entry share at least one point; touching counts.
    pub open spec fn touches(self, e: SpatialEntry) -> bool {
        &&& e.min_lon <= upper_of(self.lon_a, self.lon_b)
        &&& e.min_lat <= upper_of(self.lat_a, self.lat_b)
        &&& e.max_lon >= lower_of(self.lon_a, self.lon_b)
        &&& e.max_lat >= lower_of(self.lat_a, self.lat_b)
    }

    /// Whether the entry lies wholly inside the box.
    pub open spec fn holds(self, e: SpatialEntry) -> bool {
        &&& lower_of(self.lon_a, self.lon_b) <= e.min_lon
        &&& lower_of(self.lat_a, self.lat_b) <= e.min_lat
        &&& upper_of(self.lon_a, self.lon_b) >= e.max_lon
        &&& upper_of(self.lat_a, self.lat_b) >= e.max_lat
    }
}

/// An R*-tree of entries. The tree type of rstar is bound by traits that
/// Verus does not know, so the tree is held here and Verus sees nothing
/// inside: what the index holds is `index_entries`. Coordinates are widened
/// to 128 bits inside the tree, so that the products and sums of extents by
/// which the tree balances itself stay in range for every 32-bit coordinate.
#[verifier::external_body]
pub struct SpatialIndex {
    tree: RTree<GeomWithData<Rectangle<[i128; 2]>, i64>>,
}

/// The entries that an index holds, with their multiplicities.
pub uninterp spec fn index_entries(index: SpatialIndex) -> Multiset<SpatialEntry>;

/// `RTree::new` of rstar: a tree that holds nothing.
#[verifier::external_body]
pub(crate) fn index_new() -> (index: SpatialIndex)
    ensures
        index_entries(index) == Multiset::<SpatialEntry>::empty(),
{
    SpatialIndex { tree: RTree::new() }
}

/// `RTree::bulk_load` of rstar: a tree that holds exactly the given elements,
/// each as often as it was given.
#[verifier::external_body]
pub(crate) fn index_bulk_load(entries: Vec<SpatialEntry>) -> (index: SpatialIndex)
    requires
        forall|i: int| 0 <= i < entries.len() ==> (#[trigger] entries[i]).well_formed(),
    ensures
        index_entries(index) == entries@.to_multiset(),
{
    let mut items: Vec<GeomWithData<Rectangle<[i128; 2]>, i64>> = Vec::with_capacity(entries.len());
    for e in entries {
        let lower: [i128; 2] = [i128::from(e.min_lon), i128::from(e.min_lat)];
        let upper: [i128; 2] = [i128::from(e.max_lon), i128::from(e.max_lat)];
        items.push(GeomWithData::new(Rectangle::from_corners(lower, upper), e.id));
    }
    SpatialIndex { tree: RTree::bulk_load(items) }
}

/// `RTree::insert` of rstar: the element is added; an element that is
/// already there is held once more.
#[verifier::external_body]
pub(crate) fn index_insert(index: &mut SpatialIndex, e: SpatialEntry)
    requires
        e.well_formed(),
    ensures
        index_entries(*final(index)) == index_entries(*old(index)).insert(e),
{
    let lower: [i128; 2] = [i128::from(e.min_lon), i128::from(e.min_lat)];
    let upper: [i128; 2] = [i128::from(e.max_lon), i128::from(e.max_lat)];
    index.tree.insert(GeomWithData::new(Rectangle::from_corners(lower, upper), e.id));
}

/// `RTree::remove` of rstar: one element equal to the given one leaves the
/// tree, if there is one; the result says whether one left.
#[verifier::external_body]
pub(crate) fn index_remove(index: &mut SpatialIndex, e: SpatialEntry) -> (removed: bool)
    requires
        e.well_formed(),
    ensures
        index_entries(*final(index)) == index_entries(*old(index)).remove(e),
        removed == (index_entries(*old(index)).count(e) > 0),
{
    let lower: [i128; 2] = [i128::from(e.min_lon), i128::from(e.min_lat)];
    let upper: [i128; 2] = [i128::from(e.max_lon), i128::from(e.max_lat)];
    index.tree.remove(&GeomWithData::new(Rectangle::from_corners(lower, upper), e.id)).is_some()
}

/// `RTree::iter` of rstar: every element of the tree, in an order that is
/// not specified.
#[verifier::external_body]
pub(crate) fn index_all(index: &SpatialIndex) -> (entries: Vec<SpatialEntry>)
    ensures
        entries@.to_multiset() == index_entries(*index),
        forall|i: int| 0 <= i < entries.len() ==> (#[trigger] entries[i]).well_formed(),
{
    index.tree.iter().map(|g| SpatialEntry {
        id: g.data,
        min_lon: g.geom().lower()[0] as i32,
        min_lat: g.geom().lower()[1] as i32,
        max_lon: g.geom().upper()[0] as i32,
        max_lat: g.geom().upper()[1] as i32,
    }).collect()
}

/// `RTree::locate_in_envelope_intersecting` of rstar: the elements whose box
/// shares a point with the query box, touching included, in an order that is
/// not specified.
#[verifier::external_body]
pub(crate) fn index_touching(index: &SpatialIndex, query: QueryBox) -> (entries: Vec<SpatialEntry>)
    ensures
        entries@.to_multiset() == index_entries(*index).filter(|e: SpatialEntry| query.touches(e)),
        forall|i: int| 0 <= i < entries.len() ==> (#[trigger] entries[i]).well_formed(),
{
    let a: [i128; 2] = [i128::from(query.lon_a), i128::from(query.lat_a)];
    let b: [i128; 2] = [i128::from(query.lon_b), i128::from(query.lat_b)];
    index.tree.locate_in_envelope_intersecting(&AABB::from_corners(a, b)).map(|g| SpatialEntry {
        id: g.data,
        min_lon: g.geom().lower()[0] as i32,
        min_lat: g.geom().lower()[1] as i32,
        max_lon: g.geom().upper()[0] as i32,
        max_lat: g.geom().upper()[1] as i32,
    }).collect()
}

/// `RTree::locate_in_envelope` of rstar: the elements whose box lies wholly
/// inside the query box, in an order that is not specified.
#[verifier::external_body]
pub(crate) fn index_inside(index: &SpatialIndex, query: QueryBox) -> (entries: Vec<SpatialEntry>)
    ensures
        entries@.to_multiset() == index_entries(*index).filter(|e: SpatialEntry| query.holds(e)),
        forall|i: int| 0 <= i < entries.len() ==> (#[trigger] entries[i]).well_formed(),
{
    let a: [i128; 2] = [i128::from(query.lon_a), i128::from(query.lat_a)];
    let b: [i128; 2] = [i128::from(query.lon_b), i128::from(query.lat_b)];
    index.tree.locate_in_envelope(&AABB::from_corners(a, b)).map(|g| SpatialEntry {
        id: g.data,
        min_lon: g.geom().lower()[0] as i32,
        min_lat: g.geom().lower()[1] as i32,
        max_lon: g.geom().upper()[0] as i32,
        max_lat: g.geom().upper()[1] as i32,
    }).collect()
}

/// The entries of an index whose identifier is not `id`.
pub open spec fn without_id(entries: Multiset<SpatialEntry>, id: i64) -> Multiset<SpatialEntry> {
    entries.filter(|e: SpatialEntry| e.id != id)
}

proof fn lemma_prefix_counts<A>(s: Seq<A>, n: int, a: A)
    requires
        0 <= n <= s.len(),
    ensures
        s.take(n).to_multiset().count(a) <= s.to_multiset().count(a),
        n < s.len() ==> s.take(n + 1).to_multiset().count(a) == s.take(n).to_multiset().count(a) + (
        if s[n] == a {
            1int
        } else {
            0int
        }),
{
    broadcast use vstd::multiset::group_multiset_axioms;

    lemma_multiset_commutative(s.take(n), s.skip(n));
    assert(s.take(n) + s.skip(n) =~= s);
    if n < s.len() {
        assert(s.take(n + 1) =~= s.take(n).push(s[n]));
        to_multiset_build(s.take(n), s[n]);
    }
}

/// Removes every entry with the given identifier from an index, whatever its box.
pub fn index_remove_id(index: &mut SpatialIndex, id: i64)
    ensures
        index_entries(*final(index)) == without_id(index_entries(*old(index)), id),
{
    broadcast use vstd::multiset::group_multiset_axioms;

    let all = index_all(index);
    let ghost before = index_entries(*index);
    let mut i: usize = 0;
    proof {
        all@.take(0).to_multiset_ensures();
    }
    while i < all.len()
        invariant
            i <= all.len(),
            before == all@.to_multiset(),
            forall|j: int| 0 <= j < all.len() ==> (#[trigger] all[j]).well_formed(),
            forall|e: SpatialEntry|
                #![trigger index_entries(*index).count(e)]
                index_entries(*index).count(e) == (if e.id == id {
                    before.count(e) - all@.take(i as int).to_multiset().count(e)
                } else {
                    before.count(e) as int
                }),
        decreases all.len() - i,
    {
        let entry = all[i];
        proof {
            assert forall|e: SpatialEntry|
                all@.take(i + 1).to_multiset().count(e) <= before.count(e) && all@.take(
                    i + 1,
                ).to_multiset().count(e) == all@.take(i as int).to_multiset().count(e) + (if all@[i as int]
                    == e {
                    1int
                } else {
                    0int
                }) by {
                lemma_prefix_counts(all@, i as int, e);
                lemma_prefix_counts(all@, i + 1, e);
            }
        }
        if entry.id == id {
            index_remove(index, entry);
        }
        i += 1;
    }
    proof {
        assert(all@.take(all.len() as int) =~= all@);
    }
}

} // verus!
