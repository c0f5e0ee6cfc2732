//! The endpoint index of a list of segments: for each node, the segments
//! that start or end there.

use crate::polygon_assembler::{ends_at, lemma_next_segment, lists_view, next_segment};
use crate::seq_facts::lemma_push_contains;
use std::collections::HashMap;
use vstd::prelude::*;

verus! {

/// The places at which the first `upto` segments touch the node, in the
/// order of the segments: a segment with its index and `true` where it
/// starts at the node, then with its index and `false` where it ends there.
pub open spec fn endpoints_at(segments: Seq<Seq<i64>>, node: i64, upto: int) -> Seq<(usize, bool)>
    decreases upto,
{
    if upto <= 0 {
        Seq::empty()
    } else {
        let rest = endpoints_at(segments, node, upto - 1);
        let segment = segments[upto - 1];
        let started = if segment.first() == node {
            rest.push(((upto - 1) as usize, true))
        } else {
            rest
        };
        if segment.last() == node {
            started.push(((upto - 1) as usize, false))
        } else {
            started
        }
    }
}

/// Whether an entry comes before another one: by the index of the segment,
/// and for one segment the start before the end.
pub open spec fn entry_before(a: (usize, bool), b: (usize, bool)) -> bool {
    a.0 < b.0 || (a.0 == b.0 && a.1 && !b.1)
}

/// What the entries of a node are: each names a segment that starts or ends
/// at the node as it says; every such place has its entry; and the entries
/// stand in order.
pub proof fn lemma_endpoints_at(segments: Seq<Seq<i64>>, node: i64, upto: int)
    requires
        0 <= upto <= segments.len(),
        segments.len() <= usize::MAX,
    ensures
        forall|p: int|
            0 <= p < endpoints_at(segments, node, upto).len() ==> {
                let entry = #[trigger] endpoints_at(segments, node, upto)[p];
                &&& entry.0 < upto
                &&& if entry.1 {
                    segments[entry.0 as int].first() == node
                } else {
                    segments[entry.0 as int].last() == node
                }
            },
        forall|j: int|
            0 <= j < upto && (#[trigger] segments[j]).first() == node ==> endpoints_at(
                segments,
                node,
                upto,
            ).contains((j as usize, true)),
        forall|j: int|
            0 <= j < upto && (#[trigger] segments[j]).last() == node ==> endpoints_at(
                segments,
                node,
                upto,
            ).contains((j as usize, false)),
        forall|p: int, q: int|
            0 <= p < q < endpoints_at(segments, node, upto).len() ==> entry_before(
                #[trigger] endpoints_at(segments, node, upto)[p],
                #[trigger] endpoints_at(segments, node, upto)[q],
            ),
    decreases upto,
{
    if upto > 0 {
        lemma_endpoints_at(segments, node, upto - 1);
        let rest = endpoints_at(segments, node, upto - 1);
        let segment = segments[upto - 1];
        let at = (upto - 1) as usize;
        let started = if segment.first() == node {
            rest.push((at, true))
        } else {
            rest
        };
        let all = endpoints_at(segments, node, upto);
        lemma_push_contains(rest, (at, true));
        lemma_push_contains(started, (at, false));
        assert forall|p: int| 0 <= p < all.len() implies ({
            let entry = #[trigger] all[p];
            &&& entry.0 < upto
            &&& if entry.1 {
                segments[entry.0 as int].first() == node
            } else {
                segments[entry.0 as int].last() == node
            }
        }) by {
            if p < rest.len() {
                assert(all[p] == rest[p]);
            }
        }
        assert forall|p: int, q: int| 0 <= p < q < all.len() implies entry_before(
            #[trigger] all[p],
            #[trigger] all[q],
        ) by {
            if q < rest.len() {
                assert(all[p] == rest[p] && all[q] == rest[q]);
            } else if p < rest.len() {
                assert(all[p] == rest[p]);
                assert(rest[p].0 < upto - 1);
            }
        }
        assert forall|j: int| 0 <= j < upto && (#[trigger] segments[j]).first() == node implies all.contains(
            (j as usize, true),
        ) by {
            if j < upto - 1 {
                assert(rest.contains((j as usize, true)));
            }
        }
        assert forall|j: int| 0 <= j < upto && (#[trigger] segments[j]).last() == node implies all.contains(
            (j as usize, false),
        ) by {
            if j < upto - 1 {
                assert(rest.contains((j as usize, false)));
            }
        }
    }
}

/// The first entry of a list, from `from` on, whose segment is unused.
pub open spec fn first_unused(entries: Seq<(usize, bool)>, used: Seq<bool>, from: int) -> Option<
    (usize, bool),
>
    decreases entries.len() - from,
{
    if from < 0 || from >= entries.len() {
        None
    } else if !used[entries[from].0 as int] {
        Some(entries[from])
    } else {
        first_unused(entries, used, from + 1)
    }
}

/// What `first_unused` finds is an entry of an unused segment, and every
/// entry before it is one of a used segment.
pub proof fn lemma_first_unused(entries: Seq<(usize, bool)>, used: Seq<bool>, from: int)
    requires
        0 <= from,
    ensures
        match first_unused(entries, used, from) {
            Some(entry) => exists|p: int|
                from <= p < entries.len() && #[trigger] entries[p] == entry && !used[entry.0 as int]
                    && forall|q: int| from <= q < p ==> used[(#[trigger] entries[q]).0 as int],
            None => forall|q: int| from <= q < entries.len() ==> used[(#[trigger] entries[q]).0 as int],
        },
    decreases entries.len() - from,
{
    if from < entries.len() {
        if !used[entries[from].0 as int] {
            assert(entries[from] == entries[from]);
        } else {
            lemma_first_unused(entries, used, from + 1);
            match first_unused(entries, used, from + 1) {
                Some(entry) => {
                    let p = choose|p: int|
                        from + 1 <= p < entries.len() && #[trigger] entries[p] == entry
                            && !used[entry.0 as int] && forall|q: int|
                            from + 1 <= q < p ==> used[(#[trigger] entries[q]).0 as int];
                    assert forall|q: int| from <= q < p implies used[(#[trigger] entries[q]).0 as int] by {
                    }
                },
                None => {},
            }
        }
    }
}

/// The first entry of an unused segment among the entries of a node names
/// the lowest-indexed unused segment that starts or ends at the node, and
/// says whether it starts there.
pub proof fn lemma_index_finds_next(segments: Seq<Seq<i64>>, used: Seq<bool>, tail: i64)
    requires
        segments.len() <= usize::MAX,
        used.len() == segments.len(),
    ensures
        match first_unused(endpoints_at(segments, tail, segments.len() as int), used, 0) {
            Some(entry) => next_segment(segments, used, tail, 0) == Some(entry.0 as int) && entry.1
                == (segments[entry.0 as int].first() == tail),
            None => next_segment(segments, used, tail, 0) is None,
        },
{
    let entries = endpoints_at(segments, tail, segments.len() as int);
    lemma_endpoints_at(segments, tail, segments.len() as int);
    lemma_first_unused(entries, used, 0);
    lemma_next_segment(segments, used, tail, 0);
    match first_unused(entries, used, 0) {
        Some(entry) => {
            let p = choose|p: int|
                0 <= p < entries.len() && #[trigger] entries[p] == entry && !used[entry.0 as int]
                    && forall|q: int| 0 <= q < p ==> used[(#[trigger] entries[q]).0 as int];
            let i = entry.0 as int;
            assert(ends_at(segments[i], tail));
            assert forall|j: int| 0 <= j < i implies used[j] || !ends_at(
                #[trigger] segments[j],
                tail,
            ) by {
                if !used[j] && ends_at(segments[j], tail) {
                    let flag = segments[j].first() == tail;
                    assert(entries.contains((j as usize, flag)));
                    let q = choose|q: int| 0 <= q < entries.len() && entries[q] == (j as usize, flag);
                    if q < p {
                        assert(used[entries[q].0 as int]);
                    } else if q > p {
                        assert(entry_before(entries[p], entries[q]));
                    }
                }
            }
            if !entry.1 && segments[i].first() == tail {
                assert(entries.contains((i as usize, true)));
                let q = choose|q: int| 0 <= q < entries.len() && entries[q] == (i as usize, true);
                if q < p {
                    assert(used[entries[q].0 as int]);
                } else if q > p {
                    assert(entry_before(entries[p], entries[q]));
                }
            }
            match next_segment(segments, used, tail, 0) {
                Some(n) => {
                    if n < i {
                        assert(used[n] || !ends_at(segments[n], tail));
                    } else if n > i {
                        assert(used[i] || !ends_at(segments[i], tail));
                    }
                },
                None => {
                    assert(used[i] || !ends_at(segments[i], tail));
                },
            }
        },
        None => {
            match next_segment(segments, used, tail, 0) {
                Some(n) => {
                    let flag = segments[n].first() == tail;
                    assert(entries.contains((n as usize, flag)));
                    let q = choose|q: int| 0 <= q < entries.len() && entries[q] == (n as usize, flag);
                    assert(used[entries[q].0 as int]);
                },
                None => {},
            }
        },
    }
}

/// For each node at which a segment starts or ends, the segments that do,
/// with the side at which they do.
pub struct EndpointIndex {
    entries: HashMap<i64, Vec<(usize, bool)>>,
}

impl EndpointIndex {
    /// Whether the index holds, for every node, the places at which the
    /// first `upto` segments touch it.
    pub closed spec fn covers(&self, segments: Seq<Seq<i64>>, upto: int) -> bool {
        forall|node: i64|
            #![trigger endpoints_at(segments, node, upto)]
            if self.entries@.contains_key(node) {
                self.entries@[node]@ == endpoints_at(segments, node, upto)
            } else {
                endpoints_at(segments, node, upto).len() == 0
            }
    }

    /// Whether the index is that of the segments.
    pub open spec fn indexes(&self, segments: Seq<Seq<i64>>) -> bool {
        self.covers(segments, segments.len() as int)
    }

    fn add(&mut self, node: i64, at: usize, start: bool)
        ensures
            final(self).entries@.dom() == old(self).entries@.dom().insert(node),
            final(self).entries@[node]@ == (if old(self).entries@.contains_key(node) {
                old(self).entries@[node]@
            } else {
                Seq::empty()
            }).push((at, start)),
            forall|other: i64|
                other != node && #[trigger] old(self).entries@.contains_key(other) ==> final(self).entries@[other] == old(self).entries@[other],
    {
        broadcast use vstd::std_specs::hash::group_hash_axioms;

        let mut list = match self.entries.remove(&node) {
            Some(list) => list,
            None => Vec::new(),
        };
        list.push((at, start));
        self.entries.insert(node, list);
    }

    /// Builds the index of a list of segments.
    pub fn build(segments: &Vec<Vec<i64>>) -> (index: Self)
        requires
            forall|i: int| 0 <= i < segments.len() ==> (#[trigger] segments[i]).len() >= 2,
        ensures
            index.indexes(lists_view(segments@)),
    {
        let ghost all = lists_view(segments@);
        let mut index = EndpointIndex { entries: HashMap::new() };
        let mut i: usize = 0;
        while i < segments.len()
            invariant
                i <= segments.len(),
                all == lists_view(segments@),
                forall|k: int| 0 <= k < segments.len() ==> (#[trigger] segments[k]).len() >= 2,
                index.covers(all, i as int),
            decreases segments.len() - i,
        {
            let segment = &segments[i];
            assert(all[i as int] == segment@);
            let start = segment[0];
            let end = segment[segment.len() - 1];
            let ghost before = index;
            index.add(start, i, true);
            let ghost between = index;
            index.add(end, i, false);
            proof {
                assert forall|node: i64|
                    #![trigger endpoints_at(all, node, i + 1)]
                    if index.entries@.contains_key(node) {
                        index.entries@[node]@ == endpoints_at(all, node, i + 1)
                    } else {
                        endpoints_at(all, node, i + 1).len() == 0
                    } by {
                    let old_entries = endpoints_at(all, node, i as int);
                    assert(if before.entries@.contains_key(node) {
                        before.entries@[node]@ == old_entries
                    } else {
                        old_entries.len() == 0
                    });
                    if !before.entries@.contains_key(node) {
                        assert(old_entries =~= Seq::empty());
                    }
                    if node != start && node != end {
                        if before.entries@.contains_key(node) {
                            assert(between.entries@.contains_key(node));
                        }
                    } else if node == start && node != end {
                        assert(between.entries@.contains_key(node));
                    }
                }
            }
            i += 1;
        }
        index
    }

    /// The lowest-indexed unused segment that starts or ends at the node,
    /// and whether it starts there.
    pub fn next_unused(&self, segments: &Vec<Vec<i64>>, used: &Vec<bool>, tail: i64) -> (found:
        Option<(usize, bool)>)
        requires
            self.indexes(lists_view(segments@)),
            used.len() == segments.len(),
        ensures
            match found {
                Some(entry) => next_segment(lists_view(segments@), used@, tail, 0) == Some(
                    entry.0 as int,
                ) && entry.1 == (lists_view(segments@)[entry.0 as int].first() == tail),
                None => next_segment(lists_view(segments@), used@, tail, 0) is None,
            },
    {
        broadcast use vstd::std_specs::hash::group_hash_axioms;

        let ghost all = lists_view(segments@);
        let ghost entries = endpoints_at(all, tail, all.len() as int);
        proof {
            lemma_endpoints_at(all, tail, all.len() as int);
        }
        match self.entries.get(&tail) {
            None => {
                proof {
                    lemma_index_finds_next(all, used@, tail);
                }
                None
            },
            Some(list) => {
                let mut p: usize = 0;
                while p < list.len()
                    invariant
                        p <= list.len(),
                        list@ == entries,
                        all == lists_view(segments@),
                        entries == endpoints_at(all, tail, all.len() as int),
                        used.len() == all.len(),
                        forall|q: int|
                            0 <= q < entries.len() ==> (#[trigger] entries[q]).0 < all.len(),
                        first_unused(entries, used@, 0) == first_unused(entries, used@, p as int),
                    decreases list.len() - p,
                {
                    let entry = list[p];
                    if !used[entry.0] {
                        proof {
                            lemma_index_finds_next(all, used@, tail);
                        }
                        return Some(entry);
                    }
                    p += 1;
                }
                proof {
                    lemma_index_finds_next(all, used@, tail);
                }
                None
            },
        }
    }
}

} // verus!
