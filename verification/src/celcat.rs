//! Celcat calendar events and the reading of their descriptions into
//! teachers, classrooms and subject.

use crate::date::DateTime;
use crate::patterns::decode_html_entities;
use crate::patterns::html_decoded;
use crate::patterns::regex_find_all;
use crate::patterns::regex_is_match;
use crate::patterns::regex_match_texts;
use crate::patterns::regex_matches;
use crate::patterns::regex_pieces;
use crate::patterns::regex_split;
use crate::text::chars_of;
use crate::text::contains_char;
use crate::text::slice_chars;
use crate::text::split;
use crate::text::split_chars;
use crate::text::starts_with;
use crate::text::string_of;
use crate::text::string_option;
use crate::text::text_equals;
use crate::text::trim;
use crate::text::trimmed;
use vstd::prelude::*;

verus! {

/// An event as the Celcat calendar service describes it.
#[derive(Clone, Debug, PartialEq, Eq)]
pub struct CelcatEvent {
    pub id: String,
    pub start: DateTime,
    pub end: Option<DateTime>,
    pub all_day: bool,
    pub description: String,
    pub background_color: String,
    pub text_color: String,
    pub event_category: String,
}

/// A Celcat event with what its description says.
#[derive(Clone, Debug, PartialEq, Eq)]
pub struct Event {
    pub celcat: CelcatEvent,
    pub teachers: Vec<String>,
    pub classrooms: Vec<String>,
    pub subject: Option<String>,
}

/// Teachers, classrooms and subject found so far in a description.
pub type Reading = (Seq<Seq<char>>, Seq<Seq<char>>, Option<Seq<char>>);

pub open spec fn parts_separator() -> Seq<char> {
    "\r\n\r\n<br />\r\n\r\n"@
}

pub open spec fn line_break() -> Seq<char> {
    "<br />"@
}

pub open spec fn teacher_pattern() -> Seq<char> {
    "^([A-Z -]|(<br \\/>))+$"@
}

pub open spec fn course_kind_pattern() -> Seq<char> {
    "(TD|CM)"@
}

pub open spec fn course_kind_start_pattern() -> Seq<char> {
    "^(TD|CM)\\s"@
}

pub open spec fn course_kind_word_pattern() -> Seq<char> {
    "(\\s|^)(TD|CM)(\\s|$)"@
}

pub open spec fn classroom_pattern() -> Seq<char> {
    "[AE]\\d{3}"@
}

pub open spec fn unavailable_category() -> Seq<char> {
    "Indisponibilit\u{e9}"@
}

/// The description with surrounding white space removed and HTML
/// character references decoded.
pub open spec fn decoded_description(description: Seq<char>) -> Seq<char> {
    html_decoded(trimmed(description))
}

/// The trimmed parts of a decoded description.
pub open spec fn description_parts(description: Seq<char>) -> Seq<Seq<char>> {
    split(decoded_description(description), parts_separator()).map_values(|p: Seq<char>| trimmed(p))
}

/// A part that lists teachers: names in capitals, or a temporary staff
/// marker, and no `TD` or `CM` word.
pub open spec fn is_teacher_part(part: Seq<char>) -> bool {
    &&& !regex_matches(course_kind_word_pattern(), part)
    &&& ("Vac_tempo_CYTECH"@.is_prefix_of(part) || regex_matches(teacher_pattern(), part))
}

/// The pieces of a part around its `TD` and `CM` matches.
pub open spec fn kind_pieces(part: Seq<char>) -> Seq<Seq<char>> {
    regex_pieces(course_kind_pattern(), part)
}

/// The subject after a part that names a `TD` or `CM` course: the text
/// after the last `TD`/`CM` when the part starts with one, the text before
/// the first `TD`/`CM` less one character otherwise. `None` when that
/// character does not exist or is not a single byte, where the cut falls
/// outside a character boundary.
pub open spec fn course_subject(part: Seq<char>, subject: Option<Seq<char>>) -> Option<Option<Seq<char>>> {
    let pieces = kind_pieces(part);
    if !regex_matches(course_kind_word_pattern(), part) {
        Some(subject)
    } else if regex_matches(course_kind_start_pattern(), part) {
        if pieces.len() >= 2 { Some(Some(pieces.last())) } else { Some(subject) }
    } else if part.contains(' ') {
        if pieces.len() >= 2 {
            let p = pieces[0];
            if p.len() > 0 && (p.last() as u32) < 128 {
                Some(Some(p.drop_last()))
            } else {
                None
            }
        } else {
            Some(subject)
        }
    } else {
        Some(subject)
    }
}

/// The subject after the positional rules: the second part (of fewer than
/// four) or the fourth part of an unavailability, the third part (of more
/// than four) otherwise, each when no subject was found yet; for the third
/// part, the text before its first `TD`/`CM` when it has one.
pub open spec fn positional_subject(part: Seq<char>, i: int, n: int, unavailable: bool, subject: Option<Seq<char>>) -> Option<Seq<char>> {
    let s = if ((i == 1 && n < 4) || i == 3) && subject is None && unavailable { Some(part) } else { subject };
    if i == 2 && s is None && n > 4 {
        if kind_pieces(part).len() >= 2 { Some(kind_pieces(part)[0]) } else { Some(part) }
    } else {
        s
    }
}

/// Reading part `i` of `n`; `None` where reading it would cut a character.
pub open spec fn read_part(st: Reading, part: Seq<char>, i: int, n: int, unavailable: bool) -> Option<Reading> {
    if "PAU "@.is_prefix_of(part) {
        Some((st.0, st.1 + regex_match_texts(classroom_pattern(), part), st.2))
    } else {
        let teachers = if is_teacher_part(part) { st.0 + split(part, line_break()) } else { st.0 };
        match course_subject(part, st.2) {
            None => None,
            Some(subject) => Some((teachers, st.1, positional_subject(part, i, n, unavailable, subject))),
        }
    }
}

/// Reading the first `k` parts.
pub open spec fn read_parts(parts: Seq<Seq<char>>, k: int, unavailable: bool) -> Option<Reading>
    decreases k,
{
    if k <= 0 {
        Some((Seq::empty(), Seq::empty(), None))
    } else {
        match read_parts(parts, k - 1, unavailable) {
            None => None,
            Some(st) => read_part(st, parts[k - 1], k - 1, parts.len() as int, unavailable),
        }
    }
}

/// What the description of an event says.
pub open spec fn description_reading(e: CelcatEvent) -> Option<Reading> {
    let parts = description_parts(e.description@);
    read_parts(parts, parts.len() as int, e.event_category@ == unavailable_category())
}

/// An unavailability whose first three parts give no subject takes its
/// fourth part as its subject, when that part neither lists classrooms
/// (`PAU `) nor names a TD or CM course.
pub proof fn lemma_unavailability_fourth_part(parts: Seq<Seq<char>>)
    requires
        parts.len() >= 4,
        read_parts(parts, 3, true) matches Some(st) && st.2 is None,
        !"PAU "@.is_prefix_of(parts[3]),
        !regex_matches(course_kind_word_pattern(), parts[3]),
    ensures
        read_parts(parts, 4, true) matches Some(st) && st.2 == Some(parts[3]),
{
}

/// An unavailability of two or three parts whose first part gives no
/// subject takes its second part as its subject, when that part neither
/// lists classrooms nor names a TD or CM course.
pub proof fn lemma_unavailability_second_part(parts: Seq<Seq<char>>)
    requires
        2 <= parts.len() <= 3,
        read_parts(parts, 1, true) matches Some(st) && st.2 is None,
        !"PAU "@.is_prefix_of(parts[1]),
        !regex_matches(course_kind_word_pattern(), parts[1]),
    ensures
        read_parts(parts, 2, true) matches Some(st) && st.2 == Some(parts[1]),
{
}

/// The event read from an unavailability of four parts, the first three
/// giving no subject and the fourth neither listing classrooms nor naming a
/// course, has that fourth part as its subject.
pub proof fn lemma_unavailability_subject(e: CelcatEvent)
    requires
        e.event_category@ == unavailable_category(),
        description_parts(e.description@).len() == 4,
        read_parts(description_parts(e.description@), 3, true) matches Some(st) && st.2 is None,
        !"PAU "@.is_prefix_of(description_parts(e.description@)[3]),
        !regex_matches(course_kind_word_pattern(), description_parts(e.description@)[3]),
    ensures
        description_reading(e) matches Some(r) && r.2 == Some(description_parts(e.description@)[3]),
{
    lemma_unavailability_fourth_part(description_parts(e.description@));
}

/// In a description of more than four parts whose first two give no
/// subject, the third part gives it, when that part neither lists
/// classrooms nor names a TD or CM course: the text before its first `TD`
/// or `CM` when it holds one, the whole part otherwise.
pub proof fn lemma_third_part_subject(parts: Seq<Seq<char>>, unavailable: bool)
    requires
        parts.len() > 4,
        read_parts(parts, 2, unavailable) matches Some(st) && st.2 is None,
        !"PAU "@.is_prefix_of(parts[2]),
        !regex_matches(course_kind_word_pattern(), parts[2]),
    ensures
        read_parts(parts, 3, unavailable) matches Some(st) && st.2 == Some(
            if regex_pieces(course_kind_pattern(), parts[2]).len() >= 2 {
                regex_pieces(course_kind_pattern(), parts[2])[0]
            } else {
                parts[2]
            },
        ),
{
}

/// A part that starts with `TD` or `CM` gives as subject the text after
/// its last `TD` or `CM`, whatever was read before.
pub proof fn lemma_course_start_subject(parts: Seq<Seq<char>>, k: int, unavailable: bool)
    requires
        0 <= k < parts.len(),
        read_parts(parts, k, unavailable) is Some,
        !"PAU "@.is_prefix_of(parts[k]),
        regex_matches(course_kind_word_pattern(), parts[k]),
        regex_matches(course_kind_start_pattern(), parts[k]),
        regex_pieces(course_kind_pattern(), parts[k]).len() >= 2,
    ensures
        read_parts(parts, k + 1, unavailable) matches Some(st)
            && st.2 == Some(regex_pieces(course_kind_pattern(), parts[k]).last()),
{
}

/// A part that names a `TD` or `CM` course further in, and holds a space,
/// gives as subject the text before its first `TD` or `CM` less the
/// character just before it; the reading stops where that character is
/// missing or takes more than one byte.
pub proof fn lemma_course_inner_subject(parts: Seq<Seq<char>>, k: int, unavailable: bool)
    requires
        0 <= k < parts.len(),
        read_parts(parts, k, unavailable) is Some,
        !"PAU "@.is_prefix_of(parts[k]),
        regex_matches(course_kind_word_pattern(), parts[k]),
        !regex_matches(course_kind_start_pattern(), parts[k]),
        parts[k].contains(' '),
        regex_pieces(course_kind_pattern(), parts[k]).len() >= 2,
    ensures
        ({
            let before = regex_pieces(course_kind_pattern(), parts[k])[0];
            if before.len() > 0 && (before.last() as u32) < 128 {
                read_parts(parts, k + 1, unavailable) matches Some(st) && st.2 == Some(before.drop_last())
            } else {
                read_parts(parts, k + 1, unavailable) is None
            }
        }),
{
}

/// A part starting with `PAU ` adds its classroom codes to the classrooms
/// and changes nothing else.
pub proof fn lemma_classroom_part(parts: Seq<Seq<char>>, k: int, unavailable: bool)
    requires
        0 <= k < parts.len(),
        read_parts(parts, k, unavailable) is Some,
        "PAU "@.is_prefix_of(parts[k]),
    ensures
        ({
            let before = read_parts(parts, k, unavailable)->0;
            let after = read_parts(parts, k + 1, unavailable);
            after matches Some(st) && st.0 == before.0 && st.2 == before.2
                && st.1 == before.1 + regex_match_texts(classroom_pattern(), parts[k])
        }),
{
}

/// A part in capitals (or a temporary staff marker) that names no course
/// adds its lines, split at `<br />`, to the teachers, and leaves the
/// classrooms as they were.
pub proof fn lemma_teacher_part(parts: Seq<Seq<char>>, k: int, unavailable: bool)
    requires
        0 <= k < parts.len(),
        read_parts(parts, k, unavailable) is Some,
        !"PAU "@.is_prefix_of(parts[k]),
        !regex_matches(course_kind_word_pattern(), parts[k]),
        "Vac_tempo_CYTECH"@.is_prefix_of(parts[k]) || regex_matches(teacher_pattern(), parts[k]),
    ensures
        ({
            let before = read_parts(parts, k, unavailable)->0;
            let after = read_parts(parts, k + 1, unavailable);
            after matches Some(st) && st.0 == before.0 + split(parts[k], "<br />"@) && st.1 == before.1
        }),
{
}

/// `ev` is `e` with the reading of its description.
pub open spec fn is_event_of(ev: Event, e: CelcatEvent, reading: Reading) -> bool {
    &&& ev.celcat.id@ == e.id@
    &&& ev.celcat.start == e.start
    &&& ev.celcat.end == e.end
    &&& ev.celcat.all_day == e.all_day
    &&& ev.celcat.description@ == decoded_description(e.description@)
    &&& ev.celcat.background_color@ == e.background_color@
    &&& ev.celcat.text_color@ == e.text_color@
    &&& ev.celcat.event_category@ == e.event_category@
    &&& ev.teachers.deep_view() == reading.0
    &&& ev.classrooms.deep_view() == reading.1
    &&& string_option(ev.subject) == match reading.2 {
        Some(s) => Some(trimmed(s)),
        None => None,
    }
}

pub open spec fn reading_of(teachers: &Vec<String>, classrooms: &Vec<String>, subject: &Option<String>) -> Reading {
    (teachers.deep_view(), classrooms.deep_view(), string_option(*subject))
}

fn push_all(dst: &mut Vec<String>, src: &Vec<String>)
    ensures
        final(dst).deep_view() == old(dst).deep_view() + src.deep_view(),
{
    let ghost start = dst.deep_view();
    for i in 0..src.len()
        invariant
            dst.deep_view() == start + src.deep_view().take(i as int),
    {
        let ghost before = dst.deep_view();
        dst.push(src[i].clone());
        assert(dst.deep_view() =~= before.push(src[i as int]@));
        assert(src.deep_view().take(i + 1) =~= src.deep_view().take(i as int).push(src[i as int]@));
        assert(start + src.deep_view().take(i + 1) =~= (start + src.deep_view().take(i as int)).push(src[i as int]@));
    }
    assert(src.deep_view().take(src.len() as int) =~= src.deep_view());
}

fn strings_of(pieces: &Vec<Vec<char>>) -> (r: Vec<String>)
    ensures
        r.deep_view() == pieces.deep_view(),
{
    let mut r: Vec<String> = Vec::new();
    for i in 0..pieces.len()
        invariant
            r.deep_view() == pieces.deep_view().take(i as int),
    {
        let ghost before = r.deep_view();
        assert(pieces@[i as int].deep_view() =~= pieces@[i as int]@);
        let s = string_of(&pieces[i]);
        r.push(s);
        assert(r.deep_view() =~= before.push(pieces[i as int]@));
        assert(pieces.deep_view().take(i + 1) =~= pieces.deep_view().take(i as int).push(pieces[i as int]@));
    }
    assert(pieces.deep_view().take(pieces.len() as int) =~= pieces.deep_view());
    r
}

/// Reads part `i` of `n` into the teachers, classrooms and subject found so
/// far; `false` (with the state unspecified) where the reading would cut a
/// character.
fn read_part_into(
    teachers: &mut Vec<String>,
    classrooms: &mut Vec<String>,
    subject: &mut Option<String>,
    part: &Vec<char>,
    i: usize,
    n: usize,
    unavailable: bool,
) -> (ok: bool)
    ensures
        ok ==> read_part(reading_of(old(teachers), old(classrooms), old(subject)), part@, i as int, n as int, unavailable)
            == Some(reading_of(final(teachers), final(classrooms), final(subject))),
        !ok ==> read_part(reading_of(old(teachers), old(classrooms), old(subject)), part@, i as int, n as int, unavailable) is None,
{
    let text = string_of(part);
    if starts_with(part, &chars_of("PAU ")) {
        let found = regex_find_all("[AE]\\d{3}", text.as_str());
        push_all(classrooms, &found);
        return true;
    }
    let course_word = regex_is_match("(\\s|^)(TD|CM)(\\s|$)", text.as_str());
    if !course_word && (starts_with(part, &chars_of("Vac_tempo_CYTECH")) || regex_is_match("^([A-Z -]|(<br \\/>))+$", text.as_str())) {
        proof {
            reveal_strlit("<br />");
        }
        let pieces = split_chars(part, &chars_of("<br />"));
        push_all(teachers, &strings_of(&pieces));
    }
    if course_word {
        if regex_is_match("^(TD|CM)\\s", text.as_str()) {
            let pieces = regex_split("(TD|CM)", text.as_str());
            if pieces.len() >= 2 {
                *subject = Some(pieces[pieces.len() - 1].clone());
            }
        } else if contains_char(part, ' ') {
            let pieces = regex_split("(TD|CM)", text.as_str());
            if pieces.len() >= 2 {
                let before_chars = chars_of(pieces[0].as_str());
                let len = before_chars.len();
                if len == 0 || before_chars[len - 1] as u32 >= 128 {
                    return false;
                }
                *subject = Some(string_of(&slice_chars(&before_chars, 0, len - 1)));
                assert(before_chars@.subrange(0, len - 1) =~= before_chars@.drop_last());
            }
        }
    }
    if ((i == 1 && n < 4) || i == 3) && subject.is_none() && unavailable {
        *subject = Some(string_of(part));
    }
    if i == 2 && subject.is_none() && n > 4 {
        let pieces = regex_split("(TD|CM)", text.as_str());
        *subject = Some(if pieces.len() >= 2 { pieces[0].clone() } else { string_of(part) });
    }
    true
}

/// Reads all parts of a description.
fn read_description(parts: &Vec<Vec<char>>, unavailable: bool) -> (r: Option<(Vec<String>, Vec<String>, Option<String>)>)
    ensures
        r matches Some(t) ==> read_parts(parts.deep_view(), parts.len() as int, unavailable) == Some(reading_of(&t.0, &t.1, &t.2)),
        r is None ==> read_parts(parts.deep_view(), parts.len() as int, unavailable) is None,
{
    let mut teachers: Vec<String> = Vec::new();
    let mut classrooms: Vec<String> = Vec::new();
    let mut subject: Option<String> = None;
    let n = parts.len();
    assert(teachers.deep_view() =~= Seq::<Seq<char>>::empty());
    assert(classrooms.deep_view() =~= Seq::<Seq<char>>::empty());
    for i in 0..n
        invariant
            n == parts.len(),
            read_parts(parts.deep_view(), i as int, unavailable) == Some(reading_of(&teachers, &classrooms, &subject)),
    {
        assert(parts.deep_view()[i as int] == parts[i as int]@);
        if !read_part_into(&mut teachers, &mut classrooms, &mut subject, &parts[i], i, n, unavailable) {
            assert(read_parts(parts.deep_view(), i + 1, unavailable) is None);
            proof {
                lemma_read_parts_stays_none(parts.deep_view(), i + 1, n as int, unavailable);
            }
            return None;
        }
    }
    Some((teachers, classrooms, subject))
}

proof fn lemma_read_parts_stays_none(parts: Seq<Seq<char>>, k: int, m: int, unavailable: bool)
    requires
        0 <= k <= m,
        read_parts(parts, k, unavailable) is None,
    ensures
        read_parts(parts, m, unavailable) is None,
    decreases m - k,
{
    if k < m {
        lemma_read_parts_stays_none(parts, k + 1, m, unavailable);
    }
}

/// The decoded description and its trimmed parts.
fn split_description(description: &str) -> (r: (String, Vec<Vec<char>>))
    ensures
        r.0@ == decoded_description(description@),
        r.1.deep_view() == description_parts(description@),
{
    let trimmed_text = string_of(&trim(&chars_of(description)));
    let decoded = decode_html_entities(trimmed_text.as_str());
    proof {
        reveal_strlit("\r\n\r\n<br />\r\n\r\n");
    }
    let raw = split_chars(&chars_of(decoded.as_str()), &chars_of("\r\n\r\n<br />\r\n\r\n"));
    let mut parts: Vec<Vec<char>> = Vec::new();
    for i in 0..raw.len()
        invariant
            parts.deep_view() == raw.deep_view().take(i as int).map_values(|p: Seq<char>| trimmed(p)),
    {
        let ghost before = parts.deep_view();
        assert(raw@[i as int].deep_view() =~= raw@[i as int]@);
        let piece = trim(&raw[i]);
        let ghost piece_chars = piece@;
        assert(piece.deep_view() =~= piece@);
        parts.push(piece);
        assert(parts.deep_view() =~= before.push(piece_chars));
        assert(raw.deep_view().take(i + 1).map_values(|p: Seq<char>| trimmed(p))
            =~= raw.deep_view().take(i as int).map_values(|p: Seq<char>| trimmed(p)).push(piece_chars));
    }
    assert(raw.deep_view().take(raw.len() as int) =~= raw.deep_view());
    (decoded, parts)
}

impl Event {
    /// Reads an event's description: `PAU ` parts list classrooms, parts in
    /// capitals list teachers one per line, `TD`/`CM` parts and the
    /// positional rules give the subject.
    pub fn from_celcat_event(celcat_event: &CelcatEvent) -> (r: Event)
        requires
            description_reading(*celcat_event) is Some,
        ensures
            is_event_of(r, *celcat_event, description_reading(*celcat_event)->0),
    {
        let (decoded, parts) = split_description(celcat_event.description.as_str());
        let unavailable = text_equals(celcat_event.event_category.as_str(), "Indisponibilit\u{e9}");
        let (teachers, classrooms, subject) = read_description(&parts, unavailable).unwrap();
        let subject = match subject {
            Some(s) => Some(string_of(&trim(&chars_of(s.as_str())))),
            None => None,
        };
        Event {
            celcat: CelcatEvent {
                id: celcat_event.id.clone(),
                start: celcat_event.start,
                end: celcat_event.end,
                all_day: celcat_event.all_day,
                description: decoded,
                background_color: celcat_event.background_color.clone(),
                text_color: celcat_event.text_color.clone(),
                event_category: celcat_event.event_category.clone(),
            },
            teachers,
            classrooms,
            subject,
        }
    }

    /// Whether the description of an event can be read without cutting a
    /// character.
    pub fn description_is_readable(celcat_event: &CelcatEvent) -> (r: bool)
        ensures
            r == description_reading(*celcat_event) is Some,
    {
        let (_decoded, parts) = split_description(celcat_event.description.as_str());
        let unavailable = text_equals(celcat_event.event_category.as_str(), "Indisponibilit\u{e9}");
        read_description(&parts, unavailable).is_some()
    }

    /// Reads an event's description, or `None` where the reading would cut
    /// a character of the description.
    pub fn try_from_celcat_event(celcat_event: &CelcatEvent) -> (r: Option<Event>)
        ensures
            r is Some <==> description_reading(*celcat_event) is Some,
            r matches Some(ev) ==> is_event_of(ev, *celcat_event, description_reading(*celcat_event)->0),
    {
        if Self::description_is_readable(celcat_event) {
            Some(Self::from_celcat_event(celcat_event))
        } else {
            None
        }
    }
}

/// Two events hold the same values.
pub open spec fn same_event(a: Event, b: Event) -> bool {
    &&& a.celcat.id@ == b.celcat.id@
    &&& a.celcat.start == b.celcat.start
    &&& a.celcat.end == b.celcat.end
    &&& a.celcat.all_day == b.celcat.all_day
    &&& a.celcat.description@ == b.celcat.description@
    &&& a.celcat.background_color@ == b.celcat.background_color@
    &&& a.celcat.text_color@ == b.celcat.text_color@
    &&& a.celcat.event_category@ == b.celcat.event_category@
    &&& a.teachers.deep_view() == b.teachers.deep_view()
    &&& a.classrooms.deep_view() == b.classrooms.deep_view()
    &&& string_option(a.subject) == string_option(b.subject)
}

fn copy_strings(v: &Vec<String>) -> (r: Vec<String>)
    ensures
        r.deep_view() == v.deep_view(),
{
    let mut r: Vec<String> = Vec::new();
    assert(r.deep_view() =~= Seq::<Seq<char>>::empty());
    push_all(&mut r, v);
    assert(Seq::<Seq<char>>::empty() + v.deep_view() =~= v.deep_view());
    r
}

impl Event {
    /// A copy of the event.
    pub fn duplicate(&self) -> (r: Event)
        ensures
            same_event(r, *self),
    {
        Event {
            celcat: CelcatEvent {
                id: self.celcat.id.clone(),
                start: self.celcat.start,
                end: self.celcat.end,
                all_day: self.celcat.all_day,
                description: self.celcat.description.clone(),
                background_color: self.celcat.background_color.clone(),
                text_color: self.celcat.text_color.clone(),
                event_category: self.celcat.event_category.clone(),
            },
            teachers: copy_strings(&self.teachers),
            classrooms: copy_strings(&self.classrooms),
            subject: match &self.subject {
                Some(s) => Some(s.clone()),
                None => None,
            },
        }
    }
}

} // verus!
