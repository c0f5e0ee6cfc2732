//! Small facts about sequences that several modules use.

use vstd::prelude::*;

verus! {

/// What a sequence holds after one more element.
pub proof fn lemma_push_contains<A>(s: Seq<A>, a: A)
    ensures
        forall|x: A| #[trigger] s.push(a).contains(x) <==> (s.contains(x) || x == a),
{
    let longer = s.push(a);
    assert forall|x: A| #[trigger] longer.contains(x) <==> (s.contains(x) || x == a) by {
        if longer.contains(x) {
            let j = choose|j: int| 0 <= j < longer.len() && longer[j] == x;
        }
        if s.contains(x) {
            let j = choose|j: int| 0 <= j < s.len() && s[j] == x;
            assert(longer[j] == x);
        }
        if x == a {
            assert(longer[s.len() as int] == a);
        }
    }
}

/// A new element keeps a sequence free of duplicates.
pub proof fn lemma_push_no_duplicates<A>(s: Seq<A>, a: A)
    requires
        s.no_duplicates(),
        !s.contains(a),
    ensures
        s.push(a).no_duplicates(),
{
    let longer = s.push(a);
    assert forall|i: int, j: int| 0 <= i < longer.len() && 0 <= j < longer.len() && i != j implies longer[i]
        != longer[j] by {
        if i < s.len() && j < s.len() {
        } else if i < s.len() {
            assert(s[i] == longer[i]);
        } else {
            assert(s[j] == longer[j]);
        }
    }
}

/// A prefix that is one longer holds one more element.
pub proof fn lemma_take_step<A>(s: Seq<A>, i: int)
    requires
        0 <= i < s.len(),
    ensures
        s.take(i + 1) == s.take(i).push(s[i]),
        s.take(i + 1).drop_last() == s.take(i),
        s.take(i + 1).last() == s[i],
{
}

/// In a sequence without duplicates, an element is not in the prefix before it.
pub proof fn lemma_not_in_prefix<A>(s: Seq<A>, i: int)
    requires
        s.no_duplicates(),
        0 <= i < s.len(),
    ensures
        !s.take(i).contains(s[i]),
{
}

} // verus!
