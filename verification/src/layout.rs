//! Colours and geometry of the weekly timetable image.

use crate::celcat::Event;
use crate::date::div_toward_zero;
use crate::date::duration_nanos;
use crate::date::format_date_time;
use crate::date::formatted;
use crate::date::minutes_between;
use crate::date::nanos_per_second;
use crate::date::weekday;
use crate::date::weekday_from_monday;
use crate::date::DateTime;
use crate::num::u64_u32;
use crate::string::join_all;
use crate::text::joined;
use std::num::ParseIntError;
use std::num::TryFromIntError;
use vstd::prelude::*;
use vstd::string::StringSliceAdditionalSpecFns;
use vstd::utf8::encode_utf8;
use vstd::utf8::encode_utf8_valid_utf8;
use vstd::utf8::is_char_boundary;
use vstd::utf8::is_char_boundary_iff_not_is_continuation_byte;
use vstd::utf8::is_char_boundary_start_end_of_seq;
use vstd::utf8::is_continuation_byte;

verus! {

#[verifier::external_type_specification]
#[verifier::external_body]
pub struct ExParseIntError(ParseIntError);

/// A colour with 8-bit red, green and blue channels.
#[derive(Clone, Copy, Debug, PartialEq, Eq, Structural)]
pub struct Rgb {
    pub red: u8,
    pub green: u8,
    pub blue: u8,
}

/// Value of an ASCII hexadecimal digit (either case).
pub open spec fn hex_digit(b: u8) -> Option<int> {
    if 48 <= b <= 57 {
        Some(b - 48)
    } else if 97 <= b <= 102 {
        Some(b - 87)
    } else if 65 <= b <= 70 {
        Some(b - 55)
    } else {
        None
    }
}

pub open spec fn all_hex_digits(bs: Seq<u8>) -> bool {
    forall|i: int| 0 <= i < bs.len() ==> hex_digit(#[trigger] bs[i]) is Some
}

/// Value of a sequence of hexadecimal digits.
pub open spec fn hex_value(bs: Seq<u8>) -> int
    decreases bs.len(),
{
    if bs.len() == 0 {
        0
    } else {
        hex_value(bs.drop_last()) * 16 + hex_digit(bs.last())->0
    }
}

/// `u8::from_str_radix(s, 16)` on the bytes of `s`: an optional `+`, then
/// at least one hexadecimal digit, with a value below 256.
pub open spec fn parse_hex_u8(bs: Seq<u8>) -> Option<u8> {
    let digits = if bs.len() > 0 && bs[0] == 43 { bs.drop_first() } else { bs };
    if digits.len() == 0 || !all_hex_digits(digits) || hex_value(digits) > 255 {
        None
    } else {
        Some(hex_value(digits) as u8)
    }
}

/// `u8::from_str_radix(s, 16)`: as documented, an optional `+` sign
/// followed by hexadecimal digits, whose value must fit in a `u8`.
#[verifier::external_body]
fn u8_from_hex(s: &str) -> (r: Result<u8, ParseIntError>)
    ensures
        r is Ok <==> parse_hex_u8(s.spec_bytes()) is Some,
        r matches Ok(v) ==> parse_hex_u8(s.spec_bytes()) == Some(v),
{
    u8::from_str_radix(s, 16)
}

/// Whether a byte position starts a character or ends the text.
pub open spec fn at_char_boundary(bs: Seq<u8>, i: int) -> bool {
    i == bs.len() || (0 <= i < bs.len() && !is_continuation_byte(bs[i]))
}

/// What taking and reading the two bytes at `p` does: 0 when the slice
/// `[p..p + 2]` is out of the text or cuts a character, 1 when it is not a
/// hexadecimal number, 2 when it is one.
pub open spec fn pair_step(bs: Seq<u8>, p: int) -> int {
    if p + 2 > bs.len() || !at_char_boundary(bs, p) || !at_char_boundary(bs, p + 2) {
        0
    } else if parse_hex_u8(bs.subrange(p, p + 2)) is None {
        1
    } else {
        2
    }
}

pub open spec fn pair_value(bs: Seq<u8>, p: int) -> u8 {
    parse_hex_u8(bs.subrange(p, p + 2))->0
}

/// Where the channels start: after a leading `#`, or at the beginning.
pub open spec fn color_start(bs: Seq<u8>) -> int {
    if bs.len() > 0 && bs[0] == 35 { 1 } else { 0 }
}

/// What reading a colour text does: `None` where it panics (a slice out of
/// the text or cutting a character, or a fourth channel read when there is
/// no leading `#`), `Some(None)` when a channel is not a hexadecimal
/// number, `Some(Some(c))` for a colour.
pub open spec fn color_outcome(bs: Seq<u8>) -> Option<Option<Rgb>> {
    let s = color_start(bs);
    let k0 = pair_step(bs, s);
    let k1 = pair_step(bs, s + 2);
    let k2 = pair_step(bs, s + 4);
    if k0 == 0 {
        None
    } else if k0 == 1 {
        Some(None)
    } else if k1 == 0 {
        None
    } else if k1 == 1 {
        Some(None)
    } else if k2 == 0 {
        None
    } else if k2 == 1 {
        Some(None)
    } else if s == 1 {
        Some(Some(Rgb { red: pair_value(bs, s), green: pair_value(bs, s + 2), blue: pair_value(bs, s + 4) }))
    } else if pair_step(bs, 6) == 1 {
        Some(None)
    } else {
        None
    }
}

/// Reads the two bytes at `pos` as a hexadecimal number.
fn hex_pair(color: &str, pos: usize) -> (r: Result<u8, ParseIntError>)
    requires
        pair_step(color.spec_bytes(), pos as int) != 0,
    ensures
        r is Ok <==> pair_step(color.spec_bytes(), pos as int) == 2,
        r matches Ok(v) ==> v == pair_value(color.spec_bytes(), pos as int),
{
    let ghost bs = color.spec_bytes();
    proof {
        encode_utf8_valid_utf8(color@);
        is_char_boundary_iff_not_is_continuation_byte(bs, pos as int);
    }
    let (_, rest) = color.split_at(pos);
    let ghost rb = rest.spec_bytes();
    proof {
        encode_utf8_valid_utf8(rest@);
        if 2 < rb.len() {
            is_char_boundary_iff_not_is_continuation_byte(rb, 2);
        } else {
            is_char_boundary_start_end_of_seq(rb);
        }
    }
    let (pair, _) = rest.split_at(2);
    assert(pair.spec_bytes() =~= bs.subrange(pos as int, pos + 2));
    u8_from_hex(pair)
}

/// Reads a colour written `#RRGGBB` in hexadecimal. Without the leading
/// `#` no colour is ever returned: a fourth channel is read, and the
/// reading either fails or panics.
pub fn rgb_from_text(color: &str) -> (r: Result<Rgb, ParseIntError>)
    requires
        color_outcome(color.spec_bytes()) is Some,
    ensures
        r is Err <==> color_outcome(color.spec_bytes()) == Some(None::<Rgb>),
        r matches Ok(c) ==> color_outcome(color.spec_bytes()) == Some(Some(c)),
{
    let bytes = color.as_bytes();
    let start: usize = if bytes.len() > 0 && bytes[0] == 35 { 1 } else { 0 };
    let red = hex_pair(color, start)?;
    let green = hex_pair(color, start + 2)?;
    let blue = hex_pair(color, start + 4)?;
    if start == 0 {
        let fourth = hex_pair(color, 6);
        assert(fourth is Err);
        return match fourth {
            Err(e) => Err(e),
            Ok(_) => Err(unreached()),
        };
    }
    Ok(Rgb { red, green, blue })
}

/// Width of the image.
pub const IMAGE_WIDTH: u32 = 1920;

/// Height of the image.
pub const IMAGE_HEIGHT: u32 = 1080;

/// Height of a half-hour row: (1080 - 54) / 19 - 2.
pub const SCHEDULES_ROW_HEIGHT: i32 = 52;

/// Width of a day column: (1920 - 100) / 5 - 2.
pub const DAY_COLUMN_WIDTH: i32 = 362;

/// Widest text drawn inside an event.
pub const EVENT_TEXT_MAX_WIDTH: i32 = 354;

/// A day column: where its left border is drawn, and its title.
pub struct DayColumn {
    pub x: i32,
    pub name: String,
}

/// A half-hour row: where its top border is drawn, how long the border
/// is, and its label.
pub struct TimeRow {
    pub y: i32,
    pub line_width: u32,
    pub label: String,
}

/// A line of text drawn in an event: which of the four lines it is
/// (0: times, 1: category and subject, 2: teachers, 3: classrooms), and
/// where its top is.
pub struct TileLine {
    pub style: usize,
    pub text: String,
    pub top: i32,
}

/// The rectangle of an event, its colours and the lines drawn in it.
pub struct EventTile {
    pub x: i32,
    pub y: i32,
    pub width: u32,
    pub height: u32,
    pub text_color: Rgb,
    pub background: Rgb,
    pub lines: Vec<TileLine>,
}

/// Why an event could not be drawn.
#[derive(Debug)]
pub enum TileError {
    /// A colour of the event is not a hexadecimal colour.
    Color(ParseIntError),
    /// The event lasts too many minutes.
    Size(TryFromIntError),
}

/// Position of a text of the given size centred on a point (halves are
/// rounded toward zero).
pub open spec fn centered(cx: int, cy: int, w: int, h: int) -> (int, int) {
    (cx - div_toward_zero(w, 2), cy - div_toward_zero(h, 2))
}

fn half(v: i32) -> (r: i32)
    ensures
        r == div_toward_zero(v as int, 2),
{
    if v >= 0 {
        v / 2
    } else {
        proof {
            assert(-(v as int) <= 0x8000_0000);
        }
        let m: i64 = -(v as i64);
        -((m / 2) as i32)
    }
}

/// Where the group name is written: centred in the top-left cell.
pub fn title_position(text_width: i32, text_height: i32) -> (r: (i32, i32))
    ensures
        (r.0 as int, r.1 as int) == centered(49, 26, text_width as int, text_height as int),
{
    (98 / 2 - half(text_width), SCHEDULES_ROW_HEIGHT / 2 - half(text_height))
}

pub open spec fn day_column_x(i: int) -> int {
    98 + 364 * i
}

pub open spec fn day_name(i: int) -> Seq<char> {
    if i == 0 {
        "Lundi"@
    } else if i == 1 {
        "Mardi"@
    } else if i == 2 {
        "Mercredi"@
    } else if i == 3 {
        "Jeudi"@
    } else {
        "Vendredi"@
    }
}

/// The five day columns, Monday to Friday, every 364 pixels from x = 98.
pub fn day_columns() -> (r: Vec<DayColumn>)
    ensures
        r.len() == 5,
        forall|i: int| 0 <= i < 5 ==> r[i].x == day_column_x(i) && #[trigger] r[i].name@ == day_name(i),
{
    let mut r: Vec<DayColumn> = Vec::new();
    r.push(DayColumn { x: 98, name: String::from_str("Lundi") });
    r.push(DayColumn { x: 462, name: String::from_str("Mardi") });
    r.push(DayColumn { x: 826, name: String::from_str("Mercredi") });
    r.push(DayColumn { x: 1190, name: String::from_str("Jeudi") });
    r.push(DayColumn { x: 1554, name: String::from_str("Vendredi") });
    r
}

/// Where a day's title is written: centred on the column, in the header.
pub fn day_title_position(column_x: i32, text_width: i32, text_height: i32) -> (r: (i32, i32))
    requires
        0 <= column_x <= 1920,
    ensures
        (r.0 as int, r.1 as int) == centered(column_x + 1 + 181, 27, text_width as int, text_height as int),
{
    (column_x + 1 + DAY_COLUMN_WIDTH / 2 - half(text_width), 54 / 2 - half(text_height))
}

/// `hh` then `h` then `mm`, both zero-padded to two digits.
pub open spec fn time_label(i: int) -> Seq<char> {
    crate::date::two_digit_text(8 + i / 2) + seq!['h'] + crate::date::two_digit_text(30 * (i % 2))
}

fn two_digits(v: u32) -> (r: Vec<char>)
    requires
        v < 100,
    ensures
        r@ == crate::date::two_digit_text(v as int),
{
    let mut r: Vec<char> = Vec::new();
    r.push(((v / 10) as u8 + 48) as char);
    r.push(((v % 10) as u8 + 48) as char);
    r
}

/// The nineteen half-hour rows from 08h00 to 17h00, every 54 pixels from
/// y = 54; the first border spans the whole image.
pub fn time_rows() -> (r: Vec<TimeRow>)
    ensures
        r.len() == 19,
        forall|i: int| 0 <= i < 19 ==> #[trigger] r[i].y == 54 + 54 * i
            && r[i].line_width == (if i == 0 { 1920int } else { 98int })
            && r[i].label@ == time_label(i),
{
    let mut r: Vec<TimeRow> = Vec::new();
    let mut i: u32 = 0;
    while i < 19
        invariant
            i <= 19,
            r.len() == i,
            forall|k: int| 0 <= k < i ==> #[trigger] r[k].y == 54 + 54 * k
                && r[k].line_width == (if k == 0 { 1920int } else { 98int })
                && r[k].label@ == time_label(k),
        decreases 19 - i,
    {
        let row = time_row(i);
        r.push(row);
        i = i + 1;
    }
    r
}

/// The row of the hour grid with the given index.
fn time_row(i: u32) -> (row: TimeRow)
    requires
        i < 19,
    ensures
        row.y == 54 + 54 * i,
        row.line_width == (if i == 0 { 1920int } else { 98int }),
        row.label@ == time_label(i as int),
{
    let mut label = two_digits(8 + i / 2);
    label.push('h');
    let minutes = two_digits(30 * (i % 2));
    let ghost head = label@;
    let mut k: usize = 0;
    while k < minutes.len()
        invariant
            k <= minutes.len() == 2,
            label@ == head + minutes@.take(k as int),
        decreases 2 - k,
    {
        label.push(minutes[k]);
        assert(minutes@.take(k + 1) =~= minutes@.take(k as int).push(minutes@[k as int]));
        k = k + 1;
    }
    assert(minutes@.take(2) =~= minutes@);
    TimeRow {
        y: 54 + 54 * i as i32,
        line_width: if i == 0 { IMAGE_WIDTH } else { 98 },
        label: crate::text::string_of(&label),
    }
}

/// Where an hour label is written: centred on the time column, 4 pixels
/// under the row border.
pub fn time_label_position(row_y: i32, text_width: i32) -> (r: (i32, i32))
    requires
        0 <= row_y <= 1080,
    ensures
        r.0 == 49 - div_toward_zero(text_width as int, 2),
        r.1 == row_y + 4,
{
    (98 / 2 - half(text_width), row_y + 4)
}

/// Top of an event: 54 pixels per hour from 08:00 under the header, at
/// least two pixels under it.
pub open spec fn tile_top(start: DateTime) -> int {
    let t = 56 + ((start.hour - 8) * 60 + start.minute) * 54 / 30;
    if t > 58 { t } else { 58 }
}

/// Minutes from 08:00 to a start time.
pub open spec fn minutes_after_eight(t: DateTime) -> int {
    t.hour * 60 + t.minute - 480
}

/// Half an hour later, a tile starts one row lower, 54 pixels, once its
/// start is past the top border (from 08:02 on): the minutes of the start
/// move the tile as much as its hours.
pub proof fn lemma_tile_top_half_hour(a: DateTime, b: DateTime)
    requires
        minutes_after_eight(b) >= 2,
        minutes_after_eight(a) == minutes_after_eight(b) + 30,
    ensures
        tile_top(a) == tile_top(b) + 54,
{
    let x = minutes_after_eight(b) * 54;
    assert((x + 1620) / 30 == x / 30 + 54);
}

/// A later start gives a lower tile from 08:02 on, and every start up to
/// 08:01 gives the top of the first row (58).
pub proof fn lemma_tile_top_follows_start(a: DateTime, b: DateTime)
    requires
        minutes_after_eight(b) >= 0,
        minutes_after_eight(a) > minutes_after_eight(b),
    ensures
        minutes_after_eight(b) >= 2 ==> tile_top(a) > tile_top(b),
        tile_top(a) >= tile_top(b),
        minutes_after_eight(b) <= 1 ==> tile_top(b) == 58,
{
    let x = minutes_after_eight(b) * 54;
    let y = minutes_after_eight(a) * 54;
    assert(y >= x + 54);
    assert(y / 30 >= x / 30 + 1);
}

/// A tile starting on the hour, from 09:00 on, starts 108 pixels (two rows)
/// per hour below 56.
pub proof fn lemma_tile_top_on_the_hour(t: DateTime)
    requires
        t.hour >= 9,
        t.minute == 0,
    ensures
        tile_top(t) == 56 + 108 * (t.hour - 8),
{
    let h = t.hour - 8;
    assert((h * 60) * 54 / 30 == 108 * h) by (nonlinear_arith);
}

/// Minutes of an event, when it has an end.
pub open spec fn event_minutes(e: Event) -> int {
    div_toward_zero(duration_nanos(e.celcat.end->0, e.celcat.start), 60 * nanos_per_second())
}

pub open spec fn abs(v: int) -> int {
    if v < 0 { -v } else { v }
}

/// Height of an event: 54 pixels per half hour, at least one pixel, cut at
/// the bottom border; down to the bottom border when it has no end.
pub open spec fn tile_height(e: Event) -> int {
    let room = 1076 - tile_top(e.celcat.start);
    match e.celcat.end {
        Some(_) => {
            let h = abs(event_minutes(e)) * 54 / 30;
            let cut = if h < room { h } else { room };
            if cut > 1 { cut } else { 1 }
        },
        None => room,
    }
}

pub open spec fn subject_text(e: Event) -> Seq<char> {
    match e.subject {
        Some(s) => s@,
        None => seq![],
    }
}

/// The four lines that describe an event: times, category and subject,
/// teachers, classrooms.
pub open spec fn info_texts(e: Event) -> Seq<Seq<char>> {
    let times = formatted(e.celcat.start, "%Hh%M"@) + " - "@ + match e.celcat.end {
        Some(end) => formatted(end, "%Hh%M"@),
        None => seq![],
    };
    seq![
        times,
        e.celcat.event_category@ + " - "@ + subject_text(e),
        joined(e.teachers.deep_view(), ", "@),
        joined(e.classrooms.deep_view(), ", "@),
    ]
}

/// Height of a line: 20 pixels for the times, 26 for the others.
pub open spec fn line_height(style: int) -> int {
    if style == 0 { 20 } else { 26 }
}

/// The lines drawn from line `i` on, with the next line's top at `top`:
/// a non-empty line is drawn when it ends above the bottom of the event.
pub open spec fn placed_lines(texts: Seq<Seq<char>>, i: int, top: int, bottom: int) -> Seq<(int, Seq<char>, int)>
    decreases texts.len() - i,
{
    if i < 0 || i >= texts.len() {
        seq![]
    } else if texts[i].len() > 0 && top + line_height(i) < bottom {
        seq![(i, texts[i], top)] + placed_lines(texts, i + 1, top + line_height(i), bottom)
    } else {
        placed_lines(texts, i + 1, top, bottom)
    }
}

pub open spec fn line_view(l: TileLine) -> (int, Seq<char>, int) {
    (l.style as int, l.text@, l.top as int)
}

/// What reading the text colour of an event does.
pub open spec fn text_color_outcome(e: Event) -> Option<Option<Rgb>> {
    color_outcome(encode_utf8(e.celcat.text_color@))
}

/// What reading the background colour of an event does.
pub open spec fn background_outcome(e: Event) -> Option<Option<Rgb>> {
    color_outcome(encode_utf8(e.celcat.background_color@))
}

/// The length of an event, in minutes, fits in a `u32` (or it has no end).
pub open spec fn length_fits(e: Event) -> bool {
    e.celcat.end is None || abs(event_minutes(e)) <= u32::MAX
}

/// Drawing an event does not panic: its colours can be read, it starts
/// after 08:00, and its rectangle is not empty and ends above the bottom
/// border; each condition only where drawing reaches it.
pub open spec fn tile_drawable(e: Event) -> bool {
    &&& e.celcat.start.valid()
    &&& e.celcat.end matches Some(x) ==> x.valid()
    &&& text_color_outcome(e) is Some
    &&& text_color_outcome(e) matches Some(Some(_)) ==> {
        &&& e.celcat.start.hour >= 8
        &&& length_fits(e) ==> {
            &&& e.celcat.end is Some ==> abs(event_minutes(e)) * 54 <= u32::MAX
            &&& tile_top(e.celcat.start) <= 1076
            &&& tile_height(e) > 0
            &&& background_outcome(e) is Some
        }
    }
}

fn push_str_chars(dst: &mut String, s: &str)
    ensures
        final(dst)@ == old(dst)@ + s@,
{
    dst.append(s);
}

fn info_lines(event: &Event) -> (r: Vec<String>)
    requires
        event.celcat.start.valid(),
        event.celcat.end matches Some(x) ==> x.valid(),
    ensures
        r.len() == 4,
        r.deep_view() == info_texts(*event),
{
    proof {
        reveal_strlit("%Hh%M");
        reveal_strlit(" - ");
    }
    let mut times = format_date_time(&event.celcat.start, "%Hh%M");
    push_str_chars(&mut times, " - ");
    match event.celcat.end {
        Some(end) => {
            let end_text = format_date_time(&end, "%Hh%M");
            push_str_chars(&mut times, end_text.as_str());
        },
        None => {},
    }
    let mut category = event.celcat.event_category.clone();
    push_str_chars(&mut category, " - ");
    match &event.subject {
        Some(s) => push_str_chars(&mut category, s.as_str()),
        None => {},
    }
    let teachers = join_all(&event.teachers, ", ");
    let classrooms = join_all(&event.classrooms, ", ");
    let mut r: Vec<String> = Vec::new();
    r.push(times);
    r.push(category);
    r.push(teachers);
    r.push(classrooms);
    assert(r.deep_view() =~= info_texts(*event));
    r
}

fn place_lines(texts: Vec<String>, top: i32, bottom: i32) -> (r: Vec<TileLine>)
    requires
        texts.len() == 4,
        0 <= top <= 2000,
        0 <= bottom <= 2000,
    ensures
        r@.map_values(|l: TileLine| line_view(l)) == placed_lines(texts.deep_view(), 0, top as int, bottom as int),
{
    let mut r: Vec<TileLine> = Vec::new();
    let mut cur: i32 = top;
    let ghost all = texts.deep_view();
    for i in 0..4
        invariant
            texts.len() == 4,
            all == texts.deep_view(),
            top <= cur <= top + 26 * i,
            0 <= top <= 2000,
            placed_lines(all, 0, top as int, bottom as int)
                == r@.map_values(|l: TileLine| line_view(l)) + placed_lines(all, i as int, cur as int, bottom as int),
    {
        let height: i32 = if i == 0 { 20 } else { 26 };
        assert(all[i as int] == texts[i as int]@);
        if !texts[i].as_str().is_empty() && cur + height < bottom {
            let ghost before = r@.map_values(|l: TileLine| line_view(l));
            r.push(TileLine { style: i, text: texts[i].clone(), top: cur });
            assert(r@.map_values(|l: TileLine| line_view(l)) =~= before.push((i as int, all[i as int], cur as int)));
            assert(before + placed_lines(all, i as int, cur as int, bottom as int)
                =~= before.push((i as int, all[i as int], cur as int)) + placed_lines(all, i + 1, cur + height, bottom as int));
            cur = cur + height;
        }
    }
    r
}

/// The rectangle, colours and text lines of an event in the timetable
/// image. Its left side is in the column of its weekday, 4 pixels in; its
/// top and height follow the time at 54 pixels per half hour from 08:00.
pub fn event_tile(event: &Event) -> (r: Result<EventTile, TileError>)
    requires
        tile_drawable(*event),
    ensures
        r is Ok <==> (text_color_outcome(*event) matches Some(Some(_)) && length_fits(*event)
            && background_outcome(*event) matches Some(Some(_))),
        r matches Err(TileError::Size(_)) ==> text_color_outcome(*event) matches Some(Some(_)) && !length_fits(*event),
        r matches Ok(t) ==> {
            &&& t.x == 102 + 364 * weekday(event.celcat.start.date)
            &&& t.y == tile_top(event.celcat.start)
            &&& t.width == 358
            &&& t.height == tile_height(*event)
            &&& text_color_outcome(*event) == Some(Some(t.text_color))
            &&& background_outcome(*event) == Some(Some(t.background))
            &&& t.lines@.map_values(|l: TileLine| line_view(l)) == placed_lines(info_texts(*event), 0, t.y + 4, t.y + t.height - 1)
        },
{
    let text_color = match rgb_from_text(event.celcat.text_color.as_str()) {
        Ok(c) => c,
        Err(e) => return Err(TileError::Color(e)),
    };
    let start = event.celcat.start;
    let since_eight: i32 = ((start.hour - 8) * 60 + start.minute) as i32;
    let top_raw: i32 = 56 + since_eight * (SCHEDULES_ROW_HEIGHT + 2) / 30;
    let y: i32 = if top_raw > 56 + 2 { top_raw } else { 56 + 2 };
    let x: i32 = 98 + 4 + (DAY_COLUMN_WIDTH + 2) * weekday_from_monday(&start.date) as i32;
    let width: u32 = (DAY_COLUMN_WIDTH - 4) as u32;
    let height: u32 = match event.celcat.end {
        Some(end) => {
            let minutes = minutes_between(&end, &start);
            let magnitude: u64 = if minutes < 0 { (-(minutes as i128)) as u64 } else { minutes as u64 };
            let minutes32 = match u64_u32(magnitude) {
                Ok(v) => v,
                Err(e) => return Err(TileError::Size(e)),
            };
            let scaled: u32 = minutes32 * 54 / 30;
            let room: u32 = 1080 - 4 - y as u32;
            let cut: u32 = if scaled < room { scaled } else { room };
            if cut > 1 { cut } else { 1 }
        },
        None => 1080 - 4 - y as u32,
    };
    let background = match rgb_from_text(event.celcat.background_color.as_str()) {
        Ok(c) => c,
        Err(e) => return Err(TileError::Color(e)),
    };
    let texts = info_lines(event);
    let lines = place_lines(texts, y + 4, y + height as i32 - 1);
    Ok(EventTile { x, y, width, height, text_color, background, lines })
}

fn pair_step_exec(color: &str, pos: usize) -> (r: u8)
    ensures
        r == pair_step(color.spec_bytes(), pos as int),
{
    let bytes = color.as_bytes();
    let ghost bs = color.spec_bytes();
    proof {
        encode_utf8_valid_utf8(color@);
    }
    if pos > bytes.len() || bytes.len() - pos < 2 {
        return 0;
    }
    proof {
        is_char_boundary_iff_not_is_continuation_byte(bs, pos as int);
        if pos + 2 < bs.len() {
            is_char_boundary_iff_not_is_continuation_byte(bs, pos + 2);
        } else {
            is_char_boundary_start_end_of_seq(bs);
        }
    }
    if !color.is_char_boundary(pos) || !color.is_char_boundary(pos + 2) {
        return 0;
    }
    match hex_pair(color, pos) {
        Ok(_) => 2,
        Err(_) => 1,
    }
}

/// Whether reading a colour text does not panic.
pub fn color_readable(color: &str) -> (r: bool)
    ensures
        r == color_outcome(color.spec_bytes()) is Some,
{
    let bytes = color.as_bytes();
    let start: usize = if bytes.len() > 0 && bytes[0] == 35 { 1 } else { 0 };
    let k0 = pair_step_exec(color, start);
    if k0 != 2 {
        return k0 == 1;
    }
    let k1 = pair_step_exec(color, start + 2);
    if k1 != 2 {
        return k1 == 1;
    }
    let k2 = pair_step_exec(color, start + 4);
    if k2 != 2 {
        return k2 == 1;
    }
    start == 1 || pair_step_exec(color, 6) == 1
}

/// Whether drawing an event does not panic.
pub fn tile_is_drawable(event: &Event) -> (r: bool)
    ensures
        r == tile_drawable(*event),
{
    let start = event.celcat.start;
    if !start.is_valid() {
        return false;
    }
    match event.celcat.end {
        Some(end) => if !end.is_valid() {
            return false;
        },
        None => {},
    }
    if !color_readable(event.celcat.text_color.as_str()) {
        return false;
    }
    if rgb_from_text(event.celcat.text_color.as_str()).is_err() {
        return true;
    }
    if start.hour < 8 {
        return false;
    }
    let since_eight: i32 = ((start.hour - 8) * 60 + start.minute) as i32;
    let top_raw: i32 = 56 + since_eight * 54 / 30;
    let y: i32 = if top_raw > 58 { top_raw } else { 58 };
    let room: i64 = 1076 - y as i64;
    let height: i64 = match event.celcat.end {
        Some(end) => {
            let minutes = minutes_between(&end, &start);
            let magnitude: i128 = if minutes < 0 { -(minutes as i128) } else { minutes as i128 };
            if magnitude > u32::MAX as i128 {
                return true;
            }
            if magnitude * 54 > u32::MAX as i128 {
                return false;
            }
            let scaled: i64 = (magnitude * 54 / 30) as i64;
            let cut: i64 = if scaled < room { scaled } else { room };
            if cut > 1 { cut } else { 1 }
        },
        None => room,
    };
    y <= 1076 && height > 0 && color_readable(event.celcat.background_color.as_str())
}

} // verus!
