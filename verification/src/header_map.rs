//! Session cookies gathered from the `set-cookie` headers of a response.

use crate::text::string_option;
use crate::string::join_pair;
use crate::string::join_strings;
use crate::text::chars_of;
use crate::text::find_from;
use crate::text::first_occurrence;
use crate::text::lemma_first_occurrence;
use crate::text::lemma_first_occurrence_is_first;
use crate::text::occurs_at;
use crate::text::slice_chars;
use crate::text::string_of;
use crate::text::text_equals;
use vstd::prelude::*;

verus! {

/// A response header: its lowercase name, and its value when the value is
/// visible ASCII text.
pub struct Header {
    pub name: String,
    pub value: Option<String>,
}

/// The cookie that a header sets: the text of a `set-cookie` value before
/// its first `;`.
pub open spec fn cookie_of(h: Header) -> Option<Seq<char>> {
    if h.name@ == "set-cookie"@ {
        match string_option(h.value) {
            Some(v) => match first_occurrence(v, ";"@, 0) {
                Some(i) => Some(v.take(i)),
                None => None,
            },
            None => None,
        }
    } else {
        None
    }
}

/// The cookies set by the first `k` headers, joined with `; `.
pub open spec fn cookies_from(headers: Seq<Header>, k: int) -> Seq<char>
    decreases k,
{
    if k <= 0 {
        seq![]
    } else {
        let before = cookies_from(headers, k - 1);
        match cookie_of(headers[k - 1]) {
            Some(c) => join_pair(before, c, "; "@),
            None => before,
        }
    }
}

/// The cookie that a header sets is the text of its `set-cookie` value
/// before the first `;`: the value goes on with a `;` right after it, and
/// the cookie holds none. A header sets one exactly when it is a
/// `set-cookie` header whose value holds a `;`.
pub proof fn lemma_cookie_before_first_semicolon(h: Header)
    ensures
        cookie_of(h) is Some <==> (h.name@ == "set-cookie"@ && h.value is Some && h.value->0@.contains(';')),
        cookie_of(h) matches Some(c) ==> ({
            let v = h.value->0@;
            &&& c.len() < v.len()
            &&& v.subrange(0, c.len() as int) == c
            &&& v[c.len() as int] == ';'
            &&& !c.contains(';')
        }),
{
    reveal_strlit(";");
    if h.name@ == "set-cookie"@ && h.value is Some {
        let v = h.value->0@;
        let semi: Seq<char> = ";"@;
        lemma_first_occurrence(v, semi, 0);
        lemma_first_occurrence_is_first(v, semi, 0);
        assert forall|j: int| 0 <= j < v.len() implies (occurs_at(v, semi, j) <==> v[j] == ';') by {
            if occurs_at(v, semi, j) {
                assert(v.subrange(j, j + 1)[0] == v[j]);
            }
            if v[j] == ';' {
                assert(v.subrange(j, j + 1) =~= semi);
            }
        }
        match first_occurrence(v, semi, 0) {
            Some(i) => {
                assert(v[i] == ';');
                let c = v.take(i);
                assert forall|k: int| 0 <= k < c.len() implies c[k] != ';' by {
                    assert(!occurs_at(v, semi, k));
                }
                assert(v.subrange(0, c.len() as int) =~= c);
            },
            None => {
                assert forall|k: int| 0 <= k < v.len() implies v[k] != ';' by {
                    assert(!occurs_at(v, semi, k));
                }
            },
        }
    }
}

fn cookie_of_exec(h: &Header) -> (r: Option<String>)
    ensures
        string_option(r) == cookie_of(*h),
{
    if !text_equals(h.name.as_str(), "set-cookie") {
        return None;
    }
    match &h.value {
        Some(v) => {
            let chars = chars_of(v.as_str());
            proof {
                reveal_strlit(";");
            }
            match find_from(&chars, &chars_of(";"), 0) {
                Some(end) => {
                    proof {
                        lemma_first_occurrence(chars@, ";"@, 0);
                    }
                    let piece = slice_chars(&chars, 0, end);
                    assert(piece@ =~= chars@.take(end as int));
                    Some(string_of(&piece))
                },
                None => None,
            }
        },
        None => None,
    }
}

/// The session cookies of a response: the `name=value` part of each
/// `set-cookie` header, joined with `; `.
pub fn extract_cookies(headers: &Vec<Header>) -> (r: String)
    ensures
        r@ == cookies_from(headers@, headers.len() as int),
{
    let mut cookies = String::new();
    for i in 0..headers.len()
        invariant
            cookies@ == cookies_from(headers@, i as int),
    {
        match cookie_of_exec(&headers[i]) {
            Some(c) => {
                cookies = join_strings(cookies, c.as_str(), "; ");
            },
            None => {},
        }
    }
    cookies
}

} // verus!
