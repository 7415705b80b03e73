//! Configuration of the timetable service: the Celcat groups to follow and
//! the server settings, built from the values of the `CYTT_*` environment
//! variables.

use crate::patterns::regex_capture_group;
use crate::patterns::regex_first_group;
use crate::text::chars_of;
use crate::text::string_of;
use crate::text::string_option;
use vstd::prelude::*;

verus! {

/// A group of students whose timetable is followed.
#[derive(Clone, Debug)]
pub struct Group {
    pub username: String,
    pub password: String,
    pub name: String,
    pub display_name: Option<String>,
    pub student_id: Option<String>,
    pub gcal_id: Option<String>,
    pub gcal_id_cm: Option<String>,
    pub gcal_id_td: Option<String>,
    pub gcal_id_examen: Option<String>,
    pub gcal_id_autre: Option<String>,
}

/// The service's configuration.
#[derive(Clone, Debug)]
pub struct Config {
    pub groups: Vec<Group>,
    pub host: String,
    pub port: String,
    pub data_path: String,
    pub public_path: String,
    pub calendar_fetch_interval: u64,
    pub calendar_fetch_range: u8,
}

/// The values of the variables `CYTT_GROUP_n_*` of one group; `None` when a
/// variable is unset or not Unicode.
#[derive(Clone, Debug)]
pub struct GroupVars {
    pub username: Option<String>,
    pub password: Option<String>,
    pub name: Option<String>,
    pub display_name: Option<String>,
    pub student_id: Option<String>,
    pub gcal_id: Option<String>,
    pub gcal_id_cm: Option<String>,
    pub gcal_id_td: Option<String>,
    pub gcal_id_examen: Option<String>,
    pub gcal_id_autre: Option<String>,
}

/// The values of the server variables `CYTT_*`.
#[derive(Clone, Debug)]
pub struct ConfigVars {
    pub groups: Vec<GroupVars>,
    pub host: Option<String>,
    pub port: Option<String>,
    pub data_path: Option<String>,
    pub public_path: Option<String>,
    pub calendar_fetch_interval: Option<String>,
    pub calendar_fetch_range: Option<String>,
}

/// Why a group is skipped.
#[derive(Clone, Copy, Debug, PartialEq, Eq, Structural)]
pub enum GroupError {
    /// `CYTT_GROUP_n_USERNAME` could not be read.
    Username,
    /// `CYTT_GROUP_n_PASSWORD` could not be read.
    Password,
    /// `CYTT_GROUP_n_NAME` could not be read.
    Name,
    /// `CYTT_GROUP_n_NAME` has a character outside `[A-Za-z0-9-_]`.
    InvalidName,
    /// `CYTT_GROUP_n_STUDENTID` could not be read.
    StudentId,
}

/// A configuration and the groups left out of it, by their position among
/// the group variables.
pub struct LoadedConfig {
    pub config: Config,
    pub skipped: Vec<(usize, GroupError)>,
}

pub open spec fn name_char(c: char) -> bool {
    ('a' <= c <= 'z') || ('A' <= c <= 'Z') || ('0' <= c <= '9') || c == '-' || c == '_'
}

/// Every character of the name is a letter, a digit, `-` or `_`.
pub open spec fn valid_group_name(name: Seq<char>) -> bool {
    forall|i: int| 0 <= i < name.len() ==> name_char(#[trigger] name[i])
}

/// The characters accepted in a group name are exactly the ASCII letters,
/// the ASCII digits, `-` and `_`, told by their code points.
pub proof fn lemma_name_chars(c: char)
    ensures
        name_char(c) <==> (48 <= c as u32 <= 57 || 65 <= c as u32 <= 90 || 97 <= c as u32 <= 122
            || c as u32 == 45 || c as u32 == 95),
{
}

/// A code point of the ASCII letters, the ASCII digits, `-` or `_`.
pub open spec fn ascii_name_code(c: char) -> bool {
    48 <= c as u32 <= 57 || 65 <= c as u32 <= 90 || 97 <= c as u32 <= 122 || c as u32 == 45 || c as u32 == 95
}

/// A group whose username, password and student id are given is kept
/// exactly when its name is made of ASCII letters, ASCII digits, `-` and
/// `_`; otherwise it is skipped for its name.
pub proof fn lemma_group_kept_by_name(v: GroupVars)
    requires
        v.username is Some,
        v.password is Some,
        v.name is Some,
        v.student_id is Some,
    ensures
        (forall|i: int| 0 <= i < v.name->0@.len() ==> ascii_name_code(#[trigger] v.name->0@[i]))
            ==> group_outcome(v) == Ok::<(), GroupError>(()),
        !(forall|i: int| 0 <= i < v.name->0@.len() ==> ascii_name_code(#[trigger] v.name->0@[i]))
            ==> group_outcome(v) == Err::<(), GroupError>(GroupError::InvalidName),
{
    let n = v.name->0@;
    assert forall|i: int| 0 <= i < n.len() implies (name_char(n[i]) <==> ascii_name_code(n[i])) by {
        lemma_name_chars(n[i]);
    }
}

/// Whether a group name is made of letters, digits, `-` and `_`.
pub fn is_valid_group_name(name: &str) -> (r: bool)
    ensures
        r == valid_group_name(name@),
{
    let chars = chars_of(name);
    let mut i: usize = 0;
    while i < chars.len()
        invariant
            chars@ == name@,
            i <= chars.len(),
            forall|k: int| 0 <= k < i ==> name_char(#[trigger] chars@[k]),
        decreases chars.len() - i,
    {
        let c = chars[i];
        if !(('a' <= c && c <= 'z') || ('A' <= c && c <= 'Z') || ('0' <= c && c <= '9') || c == '-' || c == '_') {
            return false;
        }
        i = i + 1;
    }
    true
}

/// What the variables of a group give: the first of the username, the
/// password and the name that cannot be read is the error, then a name
/// outside `[A-Za-z0-9-_]`, then a missing student id (a required
/// variable).
pub open spec fn group_outcome(v: GroupVars) -> Result<(), GroupError> {
    if v.username is None {
        Err(GroupError::Username)
    } else if v.password is None {
        Err(GroupError::Password)
    } else if v.name is None {
        Err(GroupError::Name)
    } else if !valid_group_name(v.name->0@) {
        Err(GroupError::InvalidName)
    } else if v.student_id is None {
        Err(GroupError::StudentId)
    } else {
        Ok(())
    }
}

/// `g` holds the values of `v`.
pub open spec fn group_of(g: Group, v: GroupVars) -> bool {
    &&& Some(g.username@) == string_option(v.username)
    &&& Some(g.password@) == string_option(v.password)
    &&& Some(g.name@) == string_option(v.name)
    &&& string_option(g.display_name) == string_option(v.display_name)
    &&& g.student_id is Some
    &&& string_option(g.student_id) == string_option(v.student_id)
    &&& string_option(g.gcal_id) == string_option(v.gcal_id)
    &&& string_option(g.gcal_id_cm) == string_option(v.gcal_id_cm)
    &&& string_option(g.gcal_id_td) == string_option(v.gcal_id_td)
    &&& string_option(g.gcal_id_examen) == string_option(v.gcal_id_examen)
    &&& string_option(g.gcal_id_autre) == string_option(v.gcal_id_autre)
}

fn copy_option(o: &Option<String>) -> (r: Option<String>)
    ensures
        string_option(r) == string_option(*o),
{
    match o {
        Some(s) => Some(s.clone()),
        None => None,
    }
}

impl Group {
    /// Builds a group from its variables, or says which variable stops it.
    pub fn from_vars(vars: &GroupVars) -> (r: Result<Group, GroupError>)
        ensures
            r is Ok <==> group_outcome(*vars) is Ok,
            r matches Err(e) ==> group_outcome(*vars) == Err::<(), GroupError>(e),
            r matches Ok(g) ==> group_of(g, *vars),
    {
        let username = match &vars.username {
            Some(value) => value.clone(),
            None => return Err(GroupError::Username),
        };
        let password = match &vars.password {
            Some(value) => value.clone(),
            None => return Err(GroupError::Password),
        };
        let name = match &vars.name {
            Some(value) => if is_valid_group_name(value.as_str()) {
                value.clone()
            } else {
                return Err(GroupError::InvalidName);
            },
            None => return Err(GroupError::Name),
        };
        if vars.student_id.is_none() {
            return Err(GroupError::StudentId);
        }
        Ok(Group {
            username,
            password,
            name,
            display_name: copy_option(&vars.display_name),
            student_id: copy_option(&vars.student_id),
            gcal_id: copy_option(&vars.gcal_id),
            gcal_id_cm: copy_option(&vars.gcal_id_cm),
            gcal_id_td: copy_option(&vars.gcal_id_td),
            gcal_id_examen: copy_option(&vars.gcal_id_examen),
            gcal_id_autre: copy_option(&vars.gcal_id_autre),
        })
    }
}

/// The pattern of a release heading of the changelog: a line starting with
/// `#` and a version `x.y.z`.
pub open spec fn version_pattern() -> Seq<char> {
    "(?m)^#\\s*(\\d+\\.\\d+\\.\\d+)"@
}

/// The version of the service: the version of the first release heading of
/// the changelog, or `0.0.0` when it has none.
pub fn version_from_changelog(changelog: &str) -> (r: String)
    ensures
        r@ == match regex_first_group(version_pattern(), changelog@) {
            Some(v) => v,
            None => "0.0.0"@,
        },
{
    match regex_capture_group("(?m)^#\\s*(\\d+\\.\\d+\\.\\d+)", changelog) {
        Some(v) => v,
        None => String::from_str("0.0.0"),
    }
}

/// The group variables are numbered 0 to 255: `name_set[n]` says whether
/// `CYTT_GROUP_n_NAME` is set.
pub open spec fn names_set_before(name_set: Seq<bool>, k: int) -> bool {
    forall|i: int| 0 <= i < k ==> name_set[i]
}

/// How many groups are read: the groups 0, 1, ... up to the first one whose
/// `CYTT_GROUP_n_NAME` is unset, with one entry of `name_set` for each n in
/// 0..=255; all 256 when every name is set.
pub fn group_count(name_set: &Vec<bool>) -> (r: usize)
    requires
        name_set.len() == 256,
    ensures
        r <= 256,
        names_set_before(name_set@, r as int),
        r < 256 ==> !name_set[r as int],
{
    let mut n: usize = 0;
    while n < 256
        invariant
            name_set.len() == 256,
            n <= 256,
            names_set_before(name_set@, n as int),
        decreases 256 - n,
    {
        if !name_set[n] {
            return n;
        }
        n = n + 1;
    }
    n
}

pub open spec fn ascii_digit(c: char) -> bool {
    '0' <= c <= '9'
}

/// Value of a sequence of decimal digits.
pub open spec fn digits_value(s: Seq<char>) -> int
    decreases s.len(),
{
    if s.len() == 0 {
        0
    } else {
        digits_value(s.drop_last()) * 10 + (s.last() as int - 48)
    }
}

pub open spec fn all_ascii_digits(s: Seq<char>) -> bool {
    forall|i: int| 0 <= i < s.len() ==> ascii_digit(#[trigger] s[i])
}

/// What `str::parse` reads as an unsigned number: an optional `+`, then at
/// least one decimal digit.
pub open spec fn unsigned_value(s: Seq<char>) -> Option<int> {
    let digits = if s.len() > 0 && s[0] == '+' { s.drop_first() } else { s };
    if digits.len() == 0 || !all_ascii_digits(digits) {
        None
    } else {
        Some(digits_value(digits))
    }
}

proof fn lemma_digits_value_step(s: Seq<char>, i: int)
    requires
        0 <= i < s.len(),
    ensures
        digits_value(s.take(i + 1)) == digits_value(s.take(i)) * 10 + (s[i] as int - 48),
{
    assert(s.take(i + 1).drop_last() =~= s.take(i));
}

/// Reads an unsigned decimal number no larger than `max`.
fn parse_unsigned(s: &str, max: u64) -> (r: Option<u64>)
    requires
        max >= 9,
    ensures
        r matches Some(v) ==> unsigned_value(s@) == Some(v as int) && v <= max,
        r is None ==> (unsigned_value(s@) is None || unsigned_value(s@)->0 > max),
{
    let chars = chars_of(s);
    let skip: usize = if chars.len() > 0 && chars[0] == '+' { 1 } else { 0 };
    let ghost digits = if s@.len() > 0 && s@[0] == '+' { s@.drop_first() } else { s@ };
    assert(digits =~= chars@.skip(skip as int));
    if chars.len() == skip {
        return None;
    }
    let mut value: u64 = 0;
    let mut too_large = false;
    let mut i: usize = skip;
    assert(digits.take(0) =~= Seq::<char>::empty());
    while i < chars.len()
        invariant
            skip <= i <= chars.len(),
            chars@ == s@,
            max >= 9,
            digits == chars@.skip(skip as int),
            digits == (if s@.len() > 0 && s@[0] == '+' { s@.drop_first() } else { s@ }),
            forall|k: int| 0 <= k < i - skip ==> ascii_digit(#[trigger] digits[k]),
            !too_large ==> value == digits_value(digits.take(i - skip)) && value <= max,
            too_large ==> digits_value(digits.take(i - skip)) > max,
            digits_value(digits.take(i - skip)) >= 0,
        decreases chars.len() - i,
    {
        let c = chars[i];
        if c < '0' || c > '9' {
            assert(digits.len() == chars.len() - skip);
            assert(digits[(i - skip) as int] == chars@[i as int]);
            assert(!ascii_digit(digits[(i - skip) as int]));
            assert(!all_ascii_digits(digits));
            return None;
        }
        proof {
            lemma_digits_value_step(digits, i - skip);
        }
        let d = (c as u32 - 48) as u64;
        if !too_large {
            if value > (max - d) / 10 {
                too_large = true;
            } else {
                value = value * 10 + d;
            }
        }
        i = i + 1;
    }
    assert(digits.take(digits.len() as int) =~= digits);
    assert(all_ascii_digits(digits));
    if too_large {
        None
    } else {
        Some(value)
    }
}

/// Reads a `u64` written in decimal (`str::parse::<u64>`).
pub fn parse_u64(s: &str) -> (r: Option<u64>)
    ensures
        r matches Some(v) ==> unsigned_value(s@) == Some(v as int),
        r is None ==> (unsigned_value(s@) is None || unsigned_value(s@)->0 > u64::MAX),
{
    parse_unsigned(s, u64::MAX)
}

/// Reads a `u8` written in decimal (`str::parse::<u8>`).
pub fn parse_u8(s: &str) -> (r: Option<u8>)
    ensures
        r matches Some(v) ==> unsigned_value(s@) == Some(v as int),
        r is None ==> (unsigned_value(s@) is None || unsigned_value(s@)->0 > u8::MAX),
{
    match parse_unsigned(s, 255) {
        Some(v) => Some(v as u8),
        None => None,
    }
}

/// Positions of the groups kept among the first `k` group variables.
pub open spec fn kept_groups(vars: Seq<GroupVars>, k: int) -> Seq<int>
    decreases k,
{
    if k <= 0 {
        seq![]
    } else if group_outcome(vars[k - 1]) is Ok {
        kept_groups(vars, k - 1).push(k - 1)
    } else {
        kept_groups(vars, k - 1)
    }
}

/// Positions and errors of the groups skipped among the first `k` group
/// variables.
pub open spec fn skipped_groups(vars: Seq<GroupVars>, k: int) -> Seq<(int, GroupError)>
    decreases k,
{
    if k <= 0 {
        seq![]
    } else {
        match group_outcome(vars[k - 1]) {
            Ok(_) => skipped_groups(vars, k - 1),
            Err(e) => skipped_groups(vars, k - 1).push((k - 1, e)),
        }
    }
}

/// A text variable, or its default when unset.
pub open spec fn or_default(o: Option<String>, default: Seq<char>) -> Seq<char> {
    match o {
        Some(s) => s@,
        None => default,
    }
}

/// A number variable read in decimal, or its default when unset or
/// unreadable or above `max`.
pub open spec fn number_or_default(o: Option<String>, max: int, default: int) -> int {
    match o {
        Some(s) => match unsigned_value(s@) {
            Some(v) => if v <= max { v } else { default },
            None => default,
        },
        None => default,
    }
}

fn text_or_default(o: &Option<String>, default: &str) -> (r: String)
    ensures
        r@ == or_default(*o, default@),
{
    match o {
        Some(s) => s.clone(),
        None => default.to_owned(),
    }
}

impl Config {
    /// Builds the configuration: the groups whose variables are complete and
    /// whose name is valid, in order, and the server settings, each with its
    /// default (`127.0.0.1`, `8000`, `./data`, `./public`, 1800 seconds between
    /// fetches, 10 weeks fetched).
    pub fn from_vars(vars: &ConfigVars) -> (r: LoadedConfig)
        ensures
            ({
                let kept = kept_groups(vars.groups@, vars.groups.len() as int);
                &&& r.config.groups.len() == kept.len()
                &&& forall|j: int| 0 <= j < kept.len() ==> group_of(#[trigger] r.config.groups[j], vars.groups[kept[j]])
            }),
            r.skipped@.map_values(|p: (usize, GroupError)| (p.0 as int, p.1))
                == skipped_groups(vars.groups@, vars.groups.len() as int),
            r.config.host@ == or_default(vars.host, "127.0.0.1"@),
            r.config.port@ == or_default(vars.port, "8000"@),
            r.config.data_path@ == or_default(vars.data_path, "./data"@),
            r.config.public_path@ == or_default(vars.public_path, "./public"@),
            r.config.calendar_fetch_interval == number_or_default(vars.calendar_fetch_interval, u64::MAX as int, 1800),
            r.config.calendar_fetch_range == number_or_default(vars.calendar_fetch_range, u8::MAX as int, 10),
    {
        let mut groups: Vec<Group> = Vec::new();
        let mut skipped: Vec<(usize, GroupError)> = Vec::new();
        let n = vars.groups.len();
        for i in 0..n
            invariant
                n == vars.groups.len(),
                ({
                    let kept = kept_groups(vars.groups@, i as int);
                    &&& groups.len() == kept.len()
                    &&& forall|j: int| 0 <= j < kept.len() ==> group_of(#[trigger] groups[j], vars.groups[kept[j]])
                }),
                skipped@.map_values(|p: (usize, GroupError)| (p.0 as int, p.1)) == skipped_groups(vars.groups@, i as int),
        {
            let ghost before = skipped@.map_values(|p: (usize, GroupError)| (p.0 as int, p.1));
            match Group::from_vars(&vars.groups[i]) {
                Ok(group) => {
                    groups.push(group);
                },
                Err(e) => {
                    skipped.push((i, e));
                    assert(skipped@.map_values(|p: (usize, GroupError)| (p.0 as int, p.1)) =~= before.push((i as int, e)));
                },
            }
        }
        let interval: u64 = match &vars.calendar_fetch_interval {
            Some(value) => match parse_u64(value.as_str()) {
                Some(v) => v,
                None => 60 * 30,
            },
            None => 60 * 30,
        };
        let range: u8 = match &vars.calendar_fetch_range {
            Some(value) => match parse_u8(value.as_str()) {
                Some(v) => v,
                None => 10,
            },
            None => 10,
        };
        let config = Config {
            groups,
            host: text_or_default(&vars.host, "127.0.0.1"),
            port: text_or_default(&vars.port, "8000"),
            data_path: text_or_default(&vars.data_path, "./data"),
            public_path: text_or_default(&vars.public_path, "./public"),
            calendar_fetch_interval: interval,
            calendar_fetch_range: range,
        };
        LoadedConfig { config, skipped }
    }
}

/// What `format!("{:?}", text)` writes for a text: the text quoted, with
/// the characters that Rust escapes in debug output escaped.
pub uninterp spec fn debug_quoted(text: Seq<char>) -> Seq<char>;

/// `format!("{:?}", text)` for a `str`.
#[verifier::external_body]
fn debug_text(text: &str) -> (r: String)
    ensures
        r@ == debug_quoted(text@),
{
    format!("{:?}", text)
}

/// What `{:?}` writes for an optional text: `Some(..)` around the quoted
/// text, or `None`.
pub open spec fn debug_option(o: Option<String>) -> Seq<char> {
    match o {
        Some(s) => "Some("@ + debug_quoted(s@) + ")"@,
        None => "None"@,
    }
}

fn debug_option_text(o: &Option<String>) -> (r: String)
    ensures
        r@ == debug_option(*o),
{
    match o {
        Some(s) => String::from_str("Some(").concat(debug_text(s.as_str()).as_str()).concat(")"),
        None => String::from_str("None"),
    }
}

/// The decimal digits of a number.
pub open spec fn number_text(n: int) -> Seq<char> {
    crate::date::decimal_text(n as nat)
}

fn decimal(n: u64) -> (r: String)
    ensures
        r@ == number_text(n as int),
    decreases n,
{
    let digit = ((n % 10) as u8 + 48) as char;
    let mut last: Vec<char> = Vec::new();
    last.push(digit);
    if n < 10 {
        string_of(&last)
    } else {
        let head = decimal(n / 10);
        let tail = string_of(&last);
        head.concat(tail.as_str())
    }
}

/// How a group is shown in the log (`display_name` shows the group's name).
#[verifier::opaque]
pub open spec fn group_text(g: Group) -> Seq<char> {
    "Group(\n"@
        + "      username: "@ + g.username@ + "\n"@
        + "      password: "@ + g.password@ + "\n"@
        + "      name: "@ + g.name@ + "\n"@
        + "      display_name: "@ + debug_quoted(g.name@) + "\n"@
        + "      student_id: "@ + debug_option(g.student_id) + "\n"@
        + "      gcal_id: "@ + debug_option(g.gcal_id) + "\n"@
        + "      gcal_id_cm: "@ + debug_option(g.gcal_id_cm) + "\n"@
        + "      gcal_id_td: "@ + debug_option(g.gcal_id_td) + "\n"@
        + "      gcal_id_examen: "@ + debug_option(g.gcal_id_examen) + "\n"@
        + "      gcal_id_autre: "@ + debug_option(g.gcal_id_autre) + "\n"@
        + "    )"@
}

/// The groups as listed in the log, each indented and followed by a comma.
pub open spec fn groups_text(groups: Seq<Group>) -> Seq<char>
    decreases groups.len(),
{
    if groups.len() == 0 {
        seq![]
    } else {
        groups_text(groups.drop_last()) + "    "@ + group_text(groups.last()) + ",\n"@
    }
}

/// How the configuration is shown in the log.
pub open spec fn config_text(c: Config) -> Seq<char> {
    "Config(\n"@ + "  groups: [\n"@ + groups_text(c.groups@) + "  ],\n"@
        + "  host: "@ + c.host@ + ",\n"@
        + "  port: "@ + c.port@ + ",\n"@
        + "  data_path: "@ + c.data_path@ + ",\n"@
        + "  public_path: "@ + c.public_path@ + ",\n"@
        + "  calendar_fetch_interval: "@ + number_text(c.calendar_fetch_interval as int) + ",\n"@
        + "  calendar_fetch_range: "@ + number_text(c.calendar_fetch_range as int) + ",\n"@
        + ")\n"@
}

proof fn lemma_groups_text_step(groups: Seq<Group>, i: int)
    requires
        0 <= i < groups.len(),
    ensures
        groups_text(groups.take(i + 1)) == groups_text(groups.take(i)) + "    "@ + group_text(groups[i]) + ",\n"@,
{
    assert(groups.take(i + 1).drop_last() =~= groups.take(i));
    assert(groups.take(i + 1).last() == groups[i]);
}

fn add_line(text: &mut String, label: &str, value: &str, end: &str)
    ensures
        final(text)@ == old(text)@ + label@ + value@ + end@,
{
    text.append(label);
    text.append(value);
    text.append(end);
}

impl Group {
    /// The group as shown in the log.
    pub fn to_string(&self) -> (r: String)
        ensures
            r@ == group_text(*self),
    {
        reveal(group_text);
        let mut text = String::from_str("Group(\n");
        add_line(&mut text, "      username: ", self.username.as_str(), "\n");
        add_line(&mut text, "      password: ", self.password.as_str(), "\n");
        add_line(&mut text, "      name: ", self.name.as_str(), "\n");
        add_line(&mut text, "      display_name: ", debug_text(self.name.as_str()).as_str(), "\n");
        add_line(&mut text, "      student_id: ", debug_option_text(&self.student_id).as_str(), "\n");
        add_line(&mut text, "      gcal_id: ", debug_option_text(&self.gcal_id).as_str(), "\n");
        add_line(&mut text, "      gcal_id_cm: ", debug_option_text(&self.gcal_id_cm).as_str(), "\n");
        add_line(&mut text, "      gcal_id_td: ", debug_option_text(&self.gcal_id_td).as_str(), "\n");
        add_line(&mut text, "      gcal_id_examen: ", debug_option_text(&self.gcal_id_examen).as_str(), "\n");
        add_line(&mut text, "      gcal_id_autre: ", debug_option_text(&self.gcal_id_autre).as_str(), "\n");
        text.append("    )");
        text
    }
}

impl Config {
    /// The configuration as shown in the log.
    pub fn to_string(&self) -> (r: String)
        ensures
            r@ == config_text(*self),
    {
        let mut text = String::from_str("Config(\n");
        text.append("  groups: [\n");
        let ghost start = text@;
        for i in 0..self.groups.len()
            invariant
                text@ == start + groups_text(self.groups@.take(i as int)),
        {
            proof {
                lemma_groups_text_step(self.groups@, i as int);
            }
            let group = self.groups[i].to_string();
            add_line(&mut text, "    ", group.as_str(), ",\n");
            assert(text@ =~= start + (groups_text(self.groups@.take(i as int)) + "    "@ + group@ + ",\n"@));
        }
        assert(self.groups@.take(self.groups.len() as int) =~= self.groups@);
        text.append("  ],\n");
        add_line(&mut text, "  host: ", self.host.as_str(), ",\n");
        add_line(&mut text, "  port: ", self.port.as_str(), ",\n");
        add_line(&mut text, "  data_path: ", self.data_path.as_str(), ",\n");
        add_line(&mut text, "  public_path: ", self.public_path.as_str(), ",\n");
        add_line(&mut text, "  calendar_fetch_interval: ", decimal(self.calendar_fetch_interval).as_str(), ",\n");
        add_line(&mut text, "  calendar_fetch_range: ", decimal(self.calendar_fetch_range as u64).as_str(), ",\n");
        text.append(")\n");
        text
    }
}

} // verus!
