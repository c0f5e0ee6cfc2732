//! Tag lists: ordered `(key, value)` pairs of strings.

use vstd::prelude::*;

verus! {

/// A tag list as a sequence of `(key, value)` character sequences.
pub type TagsView = Seq<(Seq<char>, Seq<char>)>;

/// The mathematical value of a tag list.
pub open spec fn tags_view(tags: Seq<(String, String)>) -> TagsView {
    Seq::new(tags.len(), |i: int| (tags[i].0@, tags[i].1@))
}

/// The value of the last tag whose key is `key`, if there is one. A later tag
/// overrides the ones before it that have the same key.
pub open spec fn last_value(tags: TagsView, key: Seq<char>) -> Option<Seq<char>>
    decreases tags.len(),
{
    if tags.len() == 0 {
        None
    } else if tags.last().0 == key {
        Some(tags.last().1)
    } else {
        last_value(tags.drop_last(), key)
    }
}

/// `<str as PartialEq>::eq` of std: two string slices are equal exactly when
/// they hold the same characters.
#[verifier::external_body]
pub(crate) fn str_eq(a: &str, b: &str) -> (equal: bool)
    ensures
        equal == (a@ == b@),
{
    a == b
}

/// Looks up the value of the last tag with the given key.
pub fn find_last<'a>(tags: &'a [(String, String)], key: &str) -> (found: Option<&'a str>)
    ensures
        match found {
            Some(v) => last_value(tags_view(tags@), key@) == Some(v@),
            None => last_value(tags_view(tags@), key@) is None,
        },
{
    let ghost all = tags_view(tags@);
    let mut i: usize = tags.len();
    assert(all.take(i as int) =~= all);
    while i > 0
        invariant
            i <= tags.len(),
            all == tags_view(tags@),
            last_value(all, key@) == last_value(all.take(i as int), key@),
        decreases i,
    {
        i -= 1;
        assert(all.take(i + 1).drop_last() =~= all.take(i as int));
        if str_eq(tags[i].0.as_str(), key) {
            return Some(tags[i].1.as_str());
        }
    }
    None
}

/// Copies a tag list.
pub fn clone_tags(tags: &Vec<(String, String)>) -> (copy: Vec<(String, String)>)
    ensures
        tags_view(copy@) == tags_view(tags@),
{
    let mut copy: Vec<(String, String)> = Vec::new();
    let mut i: usize = 0;
    while i < tags.len()
        invariant
            i <= tags.len(),
            copy.len() == i,
            forall|j: int| 0 <= j < i ==> copy@[j].0@ == tags@[j].0@ && copy@[j].1@ == tags@[j].1@,
        decreases tags.len() - i,
    {
        let key = tags[i].0.clone();
        let value = tags[i].1.clone();
        copy.push((key, value));
        i += 1;
    }
    copy
}

} // verus!
