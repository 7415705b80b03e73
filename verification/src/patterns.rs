//! Regular expression and HTML entity services, provided by the `regex` and
//! `html_escape` crates. A pattern that does not compile matches nothing.

use vstd::prelude::*;

verus! {

/// Whether `text` holds a match of `pattern` (`Regex::is_match`).
pub uninterp spec fn regex_matches(pattern: Seq<char>, text: Seq<char>) -> bool;

/// The texts of the successive non-overlapping matches of `pattern` in
/// `text` (`Regex::find_iter`).
pub uninterp spec fn regex_match_texts(pattern: Seq<char>, text: Seq<char>) -> Seq<Seq<char>>;

/// The pieces of `text` between the successive non-overlapping matches of
/// `pattern` (`Regex::split`): the text before the first match, the texts
/// between two matches, and the text after the last one.
pub uninterp spec fn regex_pieces(pattern: Seq<char>, text: Seq<char>) -> Seq<Seq<char>>;

/// The text of the first capture group of the first match of `pattern`
/// (`Regex::captures`, group 1).
pub uninterp spec fn regex_first_group(pattern: Seq<char>, text: Seq<char>) -> Option<Seq<char>>;

/// `text` with its HTML character references decoded
/// (`html_escape::decode_html_entities`).
pub uninterp spec fn html_decoded(text: Seq<char>) -> Seq<char>;

/// `Regex::new(pattern)` then `is_match(text)`; `false` when the pattern
/// does not compile.
#[verifier::external_body]
pub(crate) fn regex_is_match(pattern: &str, text: &str) -> (r: bool)
    ensures
        r == regex_matches(pattern@, text@),
{
    match regex::Regex::new(pattern) {
        Ok(re) => re.is_match(text),
        Err(_) => false,
    }
}

/// `Regex::new(pattern)` then `find_iter(text)`, keeping the text of each
/// match; empty when the pattern does not compile.
#[verifier::external_body]
pub(crate) fn regex_find_all(pattern: &str, text: &str) -> (r: Vec<String>)
    ensures
        r.deep_view() == regex_match_texts(pattern@, text@),
{
    match regex::Regex::new(pattern) {
        Ok(re) => re.find_iter(text).map(|m| m.as_str().to_owned()).collect(),
        Err(_) => Vec::new(),
    }
}

/// `Regex::new(pattern)` then `split(text)`, keeping the text of each
/// piece; the whole text as one piece when the pattern does not compile.
/// As regex's `Split` iterator shows, it yields one piece before each match
/// of `find_iter` and then the rest of the text, so there is one piece more
/// than there are matches.
#[verifier::external_body]
pub(crate) fn regex_split(pattern: &str, text: &str) -> (r: Vec<String>)
    ensures
        r.deep_view() == regex_pieces(pattern@, text@),
        r.len() == regex_match_texts(pattern@, text@).len() + 1,
{
    match regex::Regex::new(pattern) {
        Ok(re) => re.split(text).map(|piece| piece.to_owned()).collect(),
        Err(_) => vec![text.to_owned()],
    }
}

/// `Regex::new(pattern)` then `captures(text)`, keeping capture group 1;
/// `None` when nothing matches, the group took no part in the match, or the
/// pattern does not compile.
#[verifier::external_body]
pub(crate) fn regex_capture_group(pattern: &str, text: &str) -> (r: Option<String>)
    ensures
        r matches Some(s) ==> regex_first_group(pattern@, text@) == Some(s@),
        r is None ==> regex_first_group(pattern@, text@) is None,
{
    match regex::Regex::new(pattern) {
        Ok(re) => re.captures(text).and_then(|c| c.get(1)).map(|g| g.as_str().to_owned()),
        Err(_) => None,
    }
}

/// `html_escape::decode_html_entities(text)`, as an owned text.
#[verifier::external_body]
pub(crate) fn decode_html_entities(text: &str) -> (r: String)
    ensures
        r@ == html_decoded(text@),
{
    html_escape::decode_html_entities(text).into_owned()
}

} // verus!
