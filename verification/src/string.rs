//! Joining texts with separators.

use crate::text::joined;
use vstd::prelude::*;

verus! {

/// `string` and `other` separated by `sep`; an empty side is left out,
/// and then no separator is written.
pub open spec fn join_pair(string: Seq<char>, other: Seq<char>, sep: Seq<char>) -> Seq<char> {
    if other.len() == 0 {
        string
    } else if string.len() == 0 {
        other
    } else {
        string + sep + other
    }
}

/// Appends `other` to `string` with `sep` between them, leaving out the
/// separator when either text is empty.
pub fn join_strings(string: String, other: &str, sep: &str) -> (r: String)
    ensures
        r@ == join_pair(string@, other@, sep@),
{
    if other.is_empty() {
        return string;
    }
    if string.as_str().is_empty() {
        return other.to_owned();
    }
    string.concat(sep).concat(other)
}

/// The empty text is neutral for `join_strings` on both sides.
pub proof fn lemma_join_strings_empty(s: Seq<char>, sep: Seq<char>)
    ensures
        join_pair(s, Seq::empty(), sep) == s,
        join_pair(Seq::empty(), s, sep) == s,
{
}

/// Joining three texts gives the same result whichever pair is joined
/// first.
pub proof fn lemma_join_strings_associative(a: Seq<char>, b: Seq<char>, c: Seq<char>, sep: Seq<char>)
    ensures
        join_pair(join_pair(a, b, sep), c, sep) == join_pair(a, join_pair(b, c, sep), sep),
{
    if a.len() > 0 && b.len() > 0 && c.len() > 0 {
        assert(a + sep + b + sep + c =~= a + sep + (b + sep + c));
    }
}

/// The texts of `list`, with `sep` between each two of them.
pub fn join_all(list: &Vec<String>, sep: &str) -> (r: String)
    ensures
        r@ == joined(list.deep_view(), sep@),
{
    let mut res = String::new();
    let ghost items = list.deep_view();
    assert(items.take(0) =~= Seq::<Seq<char>>::empty());
    for i in 0..list.len()
        invariant
            items == list.deep_view(),
            res@ == joined(items.take(i as int), sep@),
    {
        assert(items.take(i + 1).drop_last() =~= items.take(i as int));
        assert(items.take(i + 1).last() == list[i as int]@);
        if i != 0 {
            res.append(sep);
        } else {
            assert(items.take(1) =~= seq![list[0]@]);
        }
        res.append(list[i].as_str());
    }
    assert(items.take(list.len() as int) =~= items);
    res
}

} // verus!
