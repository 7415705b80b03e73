//! Character-level text operations: the views of `str` and `String` are
//! sequences of characters, and these functions work on them.

use vstd::prelude::*;

verus! {

/// The text of an optional string.
pub open spec fn string_option(o: Option<String>) -> Option<Seq<char>> {
    match o {
        Some(s) => Some(s@),
        None => None,
    }
}

/// Unicode `White_Space` characters (what `char::is_whitespace` accepts).
pub open spec fn white_space(c: char) -> bool {
    ||| '\u{9}' <= c <= '\u{d}'
    ||| c == ' '
    ||| c == '\u{85}'
    ||| c == '\u{a0}'
    ||| c == '\u{1680}'
    ||| '\u{2000}' <= c <= '\u{200a}'
    ||| c == '\u{2028}'
    ||| c == '\u{2029}'
    ||| c == '\u{202f}'
    ||| c == '\u{205f}'
    ||| c == '\u{3000}'
}

/// `s` without its leading white space.
pub open spec fn trim_start(s: Seq<char>) -> Seq<char>
    decreases s.len(),
{
    if s.len() > 0 && white_space(s[0]) {
        trim_start(s.drop_first())
    } else {
        s
    }
}

/// `s` without its trailing white space.
pub open spec fn trim_end(s: Seq<char>) -> Seq<char>
    decreases s.len(),
{
    if s.len() > 0 && white_space(s.last()) {
        trim_end(s.drop_last())
    } else {
        s
    }
}

/// `s` without leading and trailing white space (`str::trim`).
pub open spec fn trimmed(s: Seq<char>) -> Seq<char> {
    trim_end(trim_start(s))
}

/// `pat` occurs in `s` at position `i`.
pub open spec fn occurs_at(s: Seq<char>, pat: Seq<char>, i: int) -> bool {
    0 <= i && i + pat.len() <= s.len() && s.subrange(i, i + pat.len()) == pat
}

/// The first position from `from` on where `pat` occurs in `s`.
pub open spec fn first_occurrence(s: Seq<char>, pat: Seq<char>, from: int) -> Option<int>
    decreases s.len() - from,
{
    if from < 0 || from + pat.len() > s.len() {
        None
    } else if pat.len() == 0 || occurs_at(s, pat, from) {
        Some(from)
    } else {
        first_occurrence(s, pat, from + 1)
    }
}

pub proof fn lemma_first_occurrence(s: Seq<char>, pat: Seq<char>, from: int)
    ensures
        first_occurrence(s, pat, from) matches Some(i) ==> from <= i && occurs_at(s, pat, i),
    decreases s.len() - from,
{
    if from < 0 || from + pat.len() > s.len() {
    } else if pat.len() == 0 || occurs_at(s, pat, from) {
        assert(pat.len() == 0 ==> s.subrange(from, from) =~= pat);
    } else {
        lemma_first_occurrence(s, pat, from + 1);
    }
}

/// The pieces of `s[from..]` between the occurrences of `sep`, from left
/// to right (`str::split`).
pub open spec fn split_from(s: Seq<char>, sep: Seq<char>, from: int) -> Seq<Seq<char>>
    decreases s.len() - from,
{
    if sep.len() == 0 || from < 0 || from > s.len() {
        seq![]
    } else {
        match first_occurrence(s, sep, from) {
            None => seq![s.subrange(from, s.len() as int)],
            Some(i) => {
                proof {
                    lemma_first_occurrence(s, sep, from);
                }
                seq![s.subrange(from, i)] + split_from(s, sep, i + sep.len())
            },
        }
    }
}

/// The pieces of `s` between the occurrences of a non-empty `sep`.
pub open spec fn split(s: Seq<char>, sep: Seq<char>) -> Seq<Seq<char>> {
    split_from(s, sep, 0)
}

/// The texts of `list`, with `sep` between each two of them (`join`).
pub open spec fn joined(list: Seq<Seq<char>>, sep: Seq<char>) -> Seq<char>
    decreases list.len(),
{
    if list.len() == 0 {
        seq![]
    } else if list.len() == 1 {
        list[0]
    } else {
        joined(list.drop_last(), sep) + sep + list.last()
    }
}

/// `String: FromIterator<&char>`: the text made of the characters.
#[verifier::external_body]
fn collect_chars(chars: &[char]) -> (r: String)
    ensures
        r@ == chars@,
{
    chars.iter().collect()
}

/// The characters of a text.
pub fn chars_of(s: &str) -> (r: Vec<char>)
    ensures
        r@ == s@,
{
    let mut r: Vec<char> = Vec::new();
    for c in it: s.chars()
        invariant
            r@ == it.seq().take(it.index() as int),
    {
        r.push(c);
    }
    r
}

/// The text made of some characters.
pub fn string_of(chars: &Vec<char>) -> (r: String)
    ensures
        r@ == chars@,
{
    collect_chars(chars.as_slice())
}

/// Whether a character is Unicode white space (`char::is_whitespace`).
pub fn is_white_space(c: char) -> (r: bool)
    ensures
        r == white_space(c),
{
    ('\u{9}' <= c && c <= '\u{d}') || c == ' ' || c == '\u{85}' || c == '\u{a0}' || c == '\u{1680}'
        || ('\u{2000}' <= c && c <= '\u{200a}') || c == '\u{2028}' || c == '\u{2029}'
        || c == '\u{202f}' || c == '\u{205f}' || c == '\u{3000}'
}

/// The characters `s[from..to]`.
pub fn slice_chars(s: &Vec<char>, from: usize, to: usize) -> (r: Vec<char>)
    requires
        from <= to <= s.len(),
    ensures
        r@ == s@.subrange(from as int, to as int),
{
    let mut r: Vec<char> = Vec::new();
    let mut i = from;
    while i < to
        invariant
            from <= i <= to <= s.len(),
            r@ == s@.subrange(from as int, i as int),
        decreases to - i,
    {
        r.push(s[i]);
        i = i + 1;
    }
    r
}

proof fn lemma_trim_start_skip(s: Seq<char>, i: int)
    requires
        0 <= i < s.len(),
        white_space(s[i]),
    ensures
        trim_start(s.skip(i)) == trim_start(s.skip(i + 1)),
{
    assert(s.skip(i).drop_first() =~= s.skip(i + 1));
}

proof fn lemma_trim_end_take(s: Seq<char>, j: int)
    requires
        0 < j <= s.len(),
        white_space(s[j - 1]),
    ensures
        trim_end(s.take(j)) == trim_end(s.take(j - 1)),
{
    assert(s.take(j).drop_last() =~= s.take(j - 1));
}

/// `s` without leading and trailing white space.
pub fn trim(s: &Vec<char>) -> (r: Vec<char>)
    ensures
        r@ == trimmed(s@),
{
    let n = s.len();
    let mut i: usize = 0;
    assert(s@.skip(0) =~= s@);
    while i < n && is_white_space(s[i])
        invariant
            i <= n == s.len(),
            trim_start(s@) == trim_start(s@.skip(i as int)),
        decreases n - i,
    {
        proof {
            lemma_trim_start_skip(s@, i as int);
        }
        i = i + 1;
    }
    let ghost rest = s@.skip(i as int);
    assert(trim_start(s@) == rest);
    let mut j: usize = n;
    assert(rest.take(rest.len() as int) =~= rest);
    while j > i && is_white_space(s[j - 1])
        invariant
            i <= j <= n == s.len(),
            rest == s@.skip(i as int),
            trim_end(rest) == trim_end(rest.take(j - i)),
        decreases j,
    {
        proof {
            lemma_trim_end_take(rest, (j - i) as int);
        }
        j = j - 1;
    }
    assert(trim_end(rest.take(j - i)) == rest.take(j - i));
    assert(rest.take(j - i) =~= s@.subrange(i as int, j as int));
    slice_chars(s, i, j)
}

/// Whether `pat` occurs in `s` at position `i`.
pub fn occurs_at_exec(s: &Vec<char>, pat: &Vec<char>, i: usize) -> (r: bool)
    ensures
        r == occurs_at(s@, pat@, i as int),
{
    if i > s.len() || pat.len() > s.len() - i {
        return false;
    }
    let mut k: usize = 0;
    while k < pat.len()
        invariant
            i + pat.len() <= s.len(),
            k <= pat.len(),
            forall|m: int| 0 <= m < k ==> s@[i + m] == pat@[m],
        decreases pat.len() - k,
    {
        if s[i + k] != pat[k] {
            assert(s@.subrange(i as int, i + pat.len())[k as int] != pat@[k as int]);
            return false;
        }
        k = k + 1;
    }
    assert(s@.subrange(i as int, i + pat.len()) =~= pat@);
    true
}

/// Whether `s` starts with `prefix`.
pub fn starts_with(s: &Vec<char>, prefix: &Vec<char>) -> (r: bool)
    ensures
        r == prefix@.is_prefix_of(s@),
{
    let r = occurs_at_exec(s, prefix, 0);
    assert(r == prefix@.is_prefix_of(s@));
    r
}

/// Whether `c` occurs in `s`.
pub fn contains_char(s: &Vec<char>, c: char) -> (r: bool)
    ensures
        r == s@.contains(c),
{
    let mut i: usize = 0;
    while i < s.len()
        invariant
            i <= s.len(),
            forall|m: int| 0 <= m < i ==> s@[m] != c,
        decreases s.len() - i,
    {
        if s[i] == c {
            return true;
        }
        i = i + 1;
    }
    false
}

/// The first position from `from` on where `pat` occurs in `s`.
pub fn find_from(s: &Vec<char>, pat: &Vec<char>, from: usize) -> (r: Option<usize>)
    requires
        pat.len() > 0,
    ensures
        r matches Some(i) ==> first_occurrence(s@, pat@, from as int) == Some(i as int),
        r is None ==> first_occurrence(s@, pat@, from as int) is None,
{
    let mut i = from;
    while i <= s.len() && pat.len() <= s.len() - i
        invariant
            from <= i,
            pat.len() > 0,
            first_occurrence(s@, pat@, from as int) == first_occurrence(s@, pat@, i as int),
        decreases s.len() + 1 - i,
    {
        if occurs_at_exec(s, pat, i) {
            return Some(i);
        }
        i = i + 1;
    }
    None
}

/// The pieces of `s` between the occurrences of a non-empty `sep`.
pub fn split_chars(s: &Vec<char>, sep: &Vec<char>) -> (r: Vec<Vec<char>>)
    requires
        sep.len() > 0,
    ensures
        r.deep_view() == split(s@, sep@),
{
    let mut out: Vec<Vec<char>> = Vec::new();
    let mut start: usize = 0;
    loop
        invariant
            sep.len() > 0,
            start <= s.len(),
            split(s@, sep@) == out.deep_view() + split_from(s@, sep@, start as int),
        decreases s.len() - start,
    {
        match find_from(s, sep, start) {
            None => {
                let piece = slice_chars(s, start, s.len());
                let ghost before = out.deep_view();
                let ghost piece_chars = piece@;
                assert(piece.deep_view() =~= piece@);
                out.push(piece);
                assert(out.deep_view() =~= before.push(piece_chars));
                assert(split_from(s@, sep@, start as int) == seq![piece_chars]);
                assert(split(s@, sep@) =~= out.deep_view());
                return out;
            },
            Some(i) => {
                proof {
                    lemma_first_occurrence(s@, sep@, start as int);
                }
                let piece = slice_chars(s, start, i);
                let ghost before = out.deep_view();
                let ghost piece_chars = piece@;
                assert(piece.deep_view() =~= piece@);
                out.push(piece);
                assert(out.deep_view() =~= before.push(piece_chars));
                assert(split_from(s@, sep@, start as int)
                    == seq![piece_chars] + split_from(s@, sep@, (i + sep.len()) as int));
                assert(before + (seq![piece_chars] + split_from(s@, sep@, (i + sep.len()) as int))
                    =~= before.push(piece_chars) + split_from(s@, sep@, (i + sep.len()) as int));
                start = i + sep.len();
            },
        }
    }
}

/// Whether two character sequences are equal.
pub fn chars_equal(a: &Vec<char>, b: &Vec<char>) -> (r: bool)
    ensures
        r == (a@ == b@),
{
    if a.len() != b.len() {
        return false;
    }
    let mut i: usize = 0;
    while i < a.len()
        invariant
            a.len() == b.len(),
            i <= a.len(),
            forall|m: int| 0 <= m < i ==> a@[m] == b@[m],
        decreases a.len() - i,
    {
        if a[i] != b[i] {
            return false;
        }
        i = i + 1;
    }
    assert(a@ =~= b@);
    true
}

/// Whether two texts are equal.
pub fn text_equals(a: &str, b: &str) -> (r: bool)
    ensures
        r == (a@ == b@),
{
    chars_equal(&chars_of(a), &chars_of(b))
}

/// No occurrence of `pat` comes before the first one, and there is none at
/// all from `from` on when there is no first one.
pub proof fn lemma_first_occurrence_is_first(s: Seq<char>, pat: Seq<char>, from: int)
    requires
        0 <= from,
        pat.len() > 0,
    ensures
        first_occurrence(s, pat, from) matches Some(i) ==> forall|j: int| from <= j < i ==> !occurs_at(s, pat, j),
        first_occurrence(s, pat, from) is None ==> forall|j: int| from <= j ==> !occurs_at(s, pat, j),
    decreases s.len() - from,
{
    if from + pat.len() > s.len() {
    } else if occurs_at(s, pat, from) {
    } else {
        lemma_first_occurrence_is_first(s, pat, from + 1);
    }
}

/// The first occurrence is at `t` when `pat` occurs there and nowhere
/// between `from` and `t`.
pub proof fn lemma_first_occurrence_at(s: Seq<char>, pat: Seq<char>, from: int, t: int)
    requires
        0 <= from <= t,
        pat.len() > 0,
        occurs_at(s, pat, t),
        forall|i: int| from <= i < t ==> !occurs_at(s, pat, i),
    ensures
        first_occurrence(s, pat, from) == Some(t),
    decreases t - from,
{
    if from < t {
        assert(!occurs_at(s, pat, from));
        lemma_first_occurrence_at(s, pat, from + 1, t);
    }
}

/// Occurrences in `b` are occurrences in `a + b`, shifted by `a.len()`.
pub proof fn lemma_first_occurrence_shift(a: Seq<char>, b: Seq<char>, pat: Seq<char>, j: int)
    requires
        0 <= j,
        pat.len() > 0,
    ensures
        first_occurrence(a + b, pat, a.len() + j) == match first_occurrence(b, pat, j) {
            Some(i) => Some(i + a.len()),
            None => None,
        },
    decreases b.len() - j,
{
    let s = a + b;
    if j + pat.len() > b.len() {
    } else {
        assert(s.subrange(a.len() + j, a.len() + j + pat.len()) =~= b.subrange(j, j + pat.len()));
        if !occurs_at(b, pat, j) {
            lemma_first_occurrence_shift(a, b, pat, j + 1);
            assert(a.len() + j + 1 == a.len() + (j + 1));
        }
    }
}

/// Splitting `a + b` from inside `b` is splitting `b`.
pub proof fn lemma_split_from_shift(a: Seq<char>, b: Seq<char>, sep: Seq<char>, j: int)
    requires
        0 <= j <= b.len(),
        sep.len() > 0,
    ensures
        split_from(a + b, sep, a.len() + j) == split_from(b, sep, j),
    decreases b.len() - j,
{
    let s = a + b;
    lemma_first_occurrence_shift(a, b, sep, j);
    lemma_first_occurrence(b, sep, j);
    match first_occurrence(b, sep, j) {
        None => {
            assert(s.subrange(a.len() + j, s.len() as int) =~= b.subrange(j, b.len() as int));
        },
        Some(i) => {
            assert(s.subrange(a.len() + j, a.len() + i) =~= b.subrange(j, i));
            lemma_split_from_shift(a, b, sep, i + sep.len());
            assert(a.len() + i + sep.len() == a.len() + (i + sep.len()));
        },
    }
}

/// Joining from the left: the first text, the separator, then the others.
pub proof fn lemma_joined_first(list: Seq<Seq<char>>, sep: Seq<char>)
    requires
        list.len() >= 2,
    ensures
        joined(list, sep) == list[0] + sep + joined(list.drop_first(), sep),
    decreases list.len(),
{
    if list.len() == 2 {
        assert(list.drop_last() =~= seq![list[0]]);
        assert(list.drop_first() =~= seq![list[1]]);
        assert(joined(list.drop_last(), sep) == list[0]);
        assert(joined(list.drop_first(), sep) == list[1]);
    } else {
        let dl = list.drop_last();
        let df = list.drop_first();
        lemma_joined_first(dl, sep);
        assert(dl.drop_first() =~= df.drop_last());
        assert(df.last() == list.last());
        assert(dl[0] == list[0]);
        assert(joined(df, sep) == joined(df.drop_last(), sep) + sep + df.last());
        assert(joined(list, sep) == joined(dl, sep) + sep + list.last());
        assert(joined(list, sep) =~= list[0] + sep + joined(df, sep));
    }
}

/// Splitting a list joined with a one-character separator that none of its
/// texts holds gives the list back.
pub proof fn lemma_split_joined(list: Seq<Seq<char>>, sep: Seq<char>)
    requires
        list.len() > 0,
        sep.len() == 1,
        forall|i: int| 0 <= i < list.len() ==> !(#[trigger] list[i]).contains(sep[0]),
    ensures
        split(joined(list, sep), sep) == list,
    decreases list.len(),
{
    let first = list[0];
    assert forall|i: int| 0 <= i < first.len() implies !occurs_at(first + sep, sep, i) by {
        if occurs_at(first + sep, sep, i) {
            assert((first + sep).subrange(i, i + 1)[0] == first[i]);
            assert(first.contains(sep[0]));
        }
    }
    if list.len() == 1 {
        let s = first;
        assert forall|i: int| 0 <= i < s.len() implies !occurs_at(s, sep, i) by {
            if occurs_at(s, sep, i) {
                assert(s.subrange(i, i + 1)[0] == s[i]);
                assert(s.contains(sep[0]));
            }
        }
        if first_occurrence(s, sep, 0) is Some {
            lemma_first_occurrence(s, sep, 0);
        }
        assert(s.subrange(0, s.len() as int) =~= s);
        assert(split(s, sep) =~= seq![s]);
    } else {
        let rest = list.drop_first();
        lemma_joined_first(list, sep);
        let a = first + sep;
        let s = a + joined(rest, sep);
        assert(joined(list, sep) =~= s);
        assert forall|i: int| 0 <= i < first.len() implies !occurs_at(s, sep, i) by {
            if occurs_at(s, sep, i) {
                assert(s.subrange(i, i + 1)[0] == s[i]);
                assert(s[i] == first[i]);
                assert(first.contains(sep[0]));
            }
        }
        assert(s.subrange(first.len() as int, first.len() + 1 as int) =~= sep);
        lemma_first_occurrence_at(s, sep, 0, first.len() as int);
        assert(s.subrange(0, first.len() as int) =~= first);
        lemma_split_from_shift(a, joined(rest, sep), sep, 0);
        assert forall|i: int| 0 <= i < rest.len() implies !(#[trigger] rest[i]).contains(sep[0]) by {
            assert(rest[i] == list[i + 1]);
        }
        lemma_split_joined(rest, sep);
        assert(split(s, sep) =~= seq![first] + rest);
        assert(seq![first] + rest =~= list);
    }
}

} // verus!
