//! Stable ordering by an integer key.

use vstd::prelude::*;

verus! {

/// Whether a pair comes before another one, or is equal to it: by the first
/// part, then by the second.
pub open spec fn pair_le(a: (i32, usize), b: (i32, usize)) -> bool {
    a.0 < b.0 || (a.0 == b.0 && a.1 <= b.1)
}

/// `slice::sort` of std, on pairs of integers: the same pairs, each as often
/// as before, in ascending order; std orders a tuple by its first part, then
/// by its second.
#[verifier::external_body]
fn sort_pairs(pairs: &mut Vec<(i32, usize)>)
    ensures
        final(pairs)@.to_multiset() == old(pairs)@.to_multiset(),
        forall|i: int, j: int|
            0 <= i < j < final(pairs)@.len() ==> pair_le(
                #[trigger] final(pairs)@[i],
                #[trigger] final(pairs)@[j],
            ),
{
    pairs.sort();
}

/// Whether `order` lists the positions `0..keys.len()`, each once, by
/// ascending key, and positions with equal keys in ascending order. There is
/// one such list for every list of keys.
pub open spec fn is_stable_order(keys: Seq<i32>, order: Seq<usize>) -> bool {
    &&& order.len() == keys.len()
    &&& forall|i: int| 0 <= i < order.len() ==> (#[trigger] order[i]) < keys.len()
    &&& forall|i: int, j: int|
        0 <= i < j < order.len() ==> keys[#[trigger] order[i] as int] < keys[#[trigger] order[j] as int]
            || (keys[order[i] as int] == keys[order[j] as int] && order[i] < order[j])
}

/// Whether `output` holds the elements of `input` by ascending key, elements
/// with equal keys in the order in which `input` holds them.
pub open spec fn is_stably_sorted<T>(input: Seq<T>, keys: Seq<i32>, output: Seq<T>) -> bool {
    exists|order: Seq<usize>|
        keys.len() == input.len() && #[trigger] is_stable_order(keys, order) && output
            == arranged(input, order)
}

/// The elements of `input` at the positions that `order` lists.
pub open spec fn arranged<T>(input: Seq<T>, order: Seq<usize>) -> Seq<T> {
    Seq::new(order.len(), |i: int| input[order[i] as int])
}

/// In a stable order the keys never fall.
pub proof fn lemma_stable_order_ascends(keys: Seq<i32>, order: Seq<usize>, i: int, j: int)
    requires
        is_stable_order(keys, order),
        0 <= i <= j < order.len(),
    ensures
        keys[order[i] as int] <= keys[order[j] as int],
{
}

/// A stable order of a list that fits in memory lists every position.
pub proof fn lemma_stable_order_complete(keys: Seq<i32>, order: Seq<usize>)
    requires
        is_stable_order(keys, order),
        keys.len() <= usize::MAX,
    ensures
        order.no_duplicates(),
        forall|p: usize| p < keys.len() ==> order.contains(p),
{
    let n = keys.len();
    let hit = order.to_set();
    let all = Set::new(|p: usize| p < n);
    order.unique_seq_to_set();
    vstd::seq_lib::seq_to_set_is_finite(order);
    lemma_below_count(n);
    vstd::set_lib::lemma_subset_equality(hit, all);
    assert forall|p: usize| p < keys.len() implies order.contains(p) by {
        assert(all.contains(p));
    }
}

/// There are `n` natural numbers below `n` that fit in a machine word.
proof fn lemma_below_count(n: nat)
    requires
        n <= usize::MAX + 1,
    ensures
        Set::new(|p: usize| p < n).finite(),
        Set::new(|p: usize| p < n).len() == n,
    decreases n,
{
    let s = Set::new(|p: usize| p < n);
    if n == 0 {
        assert(s =~= Set::<usize>::empty());
    } else {
        lemma_below_count((n - 1) as nat);
        let smaller = Set::new(|p: usize| p < (n - 1) as nat);
        assert(s =~= smaller.insert((n - 1) as usize));
    }
}

/// Orders positions by key: ascending, positions with equal keys in
/// ascending order.
pub fn stable_order(keys: &Vec<i32>) -> (order: Vec<usize>)
    ensures
        is_stable_order(keys@, order@),
{
    let mut pairs: Vec<(i32, usize)> = Vec::new();
    let mut i: usize = 0;
    while i < keys.len()
        invariant
            i <= keys.len(),
            pairs.len() == i,
            forall|k: int| 0 <= k < i ==> #[trigger] pairs@[k] == (keys@[k], k as usize),
        decreases keys.len() - i,
    {
        pairs.push((keys[i], i));
        i += 1;
    }
    let ghost given = pairs@;
    sort_pairs(&mut pairs);
    proof {
        broadcast use vstd::seq_lib::group_to_multiset_ensures;

        given.to_multiset_ensures();
        pairs@.to_multiset_ensures();
        assert forall|k: int| 0 <= k < pairs@.len() implies (#[trigger] pairs@[k]).1 < keys.len()
            && pairs@[k].0 == keys@[pairs@[k].1 as int] by {
            assert(pairs@.to_multiset().count(pairs@[k]) > 0);
        }
        given.lemma_multiset_has_no_duplicates();
        pairs@.lemma_multiset_has_no_duplicates_conv();
    }
    let mut order: Vec<usize> = Vec::new();
    let mut j: usize = 0;
    while j < pairs.len()
        invariant
            j <= pairs.len(),
            order.len() == j,
            forall|k: int| 0 <= k < j ==> #[trigger] order@[k] == pairs@[k].1,
        decreases pairs.len() - j,
    {
        order.push(pairs[j].1);
        j += 1;
    }
    order
}

} // verus!
