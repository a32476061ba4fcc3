//! Checks on the text of attributes and simple-content elements.

use vstd::prelude::*;
use vstd::string::*;
use vstd::utf8::encode_utf8;
use crate::decimal::{
    spec_validate_decimal, spec_validate_degrees, spec_validate_latitude, spec_validate_longitude,
    validate_decimal, validate_degrees, validate_latitude, validate_longitude,
};
use crate::text::{
    all_digits, chars_of, concat3, is_digit, parse_i64, spec_parse_i64, str_eq,
};
use crate::types::{fix_as_str, fix_text, fix_values, fix_values_vec, Fix};
use crate::timefmt::{naive_format_accepts, parses_naive_datetime, parses_rfc3339, rfc3339_accepts};
use super::schema::ContentCheck;
use super::Severity;

verus! {

/// A finding about a value: its severity and message.
pub type Finding = (Severity, Seq<char>);

/// The mathematical content of an executable finding.
pub open spec fn finding_view(r: Option<(Severity, String)>) -> Option<Finding> {
    match r {
        Some((s, m)) => Some((s, m@)),
        None => None,
    }
}

/// `'{text}'` followed by `tail`, as a message.
pub open spec fn quoted(text: Seq<char>, tail: Seq<char>) -> Seq<char> {
    "'"@ + text + tail
}

// ---------------------------------------------------------------- version

/// `version` other than `1.1` draws a warning.
pub open spec fn spec_validate_version(text: Seq<char>) -> Option<Finding> {
    if text != "1.1"@ {
        Some((Severity::Warning, "version is '"@ + text + "' but only '1.1' is supported by this library"@))
    } else {
        None
    }
}

/// Checks the `version` attribute of `<gpx>`.
pub fn validate_version(text: &str) -> (r: Option<(Severity, String)>)
    ensures
        finding_view(r) == spec_validate_version(text@),
{
    if !str_eq(text, "1.1") {
        return Some((Severity::Warning, concat3("version is '", text, "' but only '1.1' is supported by this library")));
    }
    None
}

// ---------------------------------------------------------------- fix

/// Whether `text` spells one of the fix kinds.
pub open spec fn is_fix_text(text: Seq<char>) -> bool {
    exists|i: int| 0 <= i < fix_values().len() && fix_text(#[trigger] fix_values()[i]) == text
}

/// The message listing the allowed fix spellings.
pub open spec fn fix_error(text: Seq<char>) -> Seq<char> {
    "invalid fix '"@ + text + "' (must be one of "@ + "none, 2d, 3d, dgps, pps"@ + ")"@
}

/// A `fix` value must be one of `none`, `2d`, `3d`, `dgps`, `pps`.
pub open spec fn spec_validate_fix(text: Seq<char>) -> Option<Finding> {
    if is_fix_text(text) {
        None
    } else {
        Some((Severity::Error, fix_error(text)))
    }
}

/// The allowed fix spellings joined by `, `.
fn allowed_fixes() -> (r: String)
    ensures
        r@ == "none, 2d, 3d, dgps, pps"@,
{
    "none, 2d, 3d, dgps, pps".to_owned()
}

/// Checks the text of `<fix>`.
pub fn validate_fix(text: &str) -> (r: Option<(Severity, String)>)
    ensures
        finding_view(r) == spec_validate_fix(text@),
{
    let values = fix_values_vec();
    let mut i: usize = 0;
    while i < values.len()
        invariant
            values@ == fix_values(),
            i <= values@.len(),
            forall|k: int| 0 <= k < i ==> fix_text(#[trigger] fix_values()[k]) != text@,
        decreases values.len() - i,
    {
        if str_eq(fix_as_str(values[i]), text) {
            return None;
        }
        i = i + 1;
    }
    let mut m = concat3("invalid fix '", text, "' (must be one of ");
    let allowed = allowed_fixes();
    m.append(allowed.as_str());
    m.append(")");
    Some((Severity::Error, m))
}

// ---------------------------------------------------------------- integers

/// A `dgpsid` must be an integer in `[0, 1023]`.
pub open spec fn spec_validate_dgpsid(text: Seq<char>) -> Option<Finding> {
    match spec_parse_i64(text) {
        None => Some((Severity::Error, "invalid dgpsid '"@ + text + "' (not an integer)"@)),
        Some(v) => if 0 <= v <= 1023 {
            None
        } else {
            Some((Severity::Error, "invalid dgpsid '"@ + text + "' (must be in [0, 1023])"@))
        },
    }
}

/// Checks the text of `<dgpsid>`.
pub fn validate_dgpsid(text: &str) -> (r: Option<(Severity, String)>)
    ensures
        finding_view(r) == spec_validate_dgpsid(text@),
{
    let chars = chars_of(text);
    match parse_i64(chars.as_slice()) {
        None => Some((Severity::Error, concat3("invalid dgpsid '", text, "' (not an integer)"))),
        Some(v) => {
            if !(0 <= v && v <= 1023) {
                Some((Severity::Error, concat3("invalid dgpsid '", text, "' (must be in [0, 1023])")))
            } else {
                None
            }
        },
    }
}

/// A count or number must be an integer that is not negative.
pub open spec fn spec_validate_non_negative_int(text: Seq<char>) -> Option<Finding> {
    match spec_parse_i64(text) {
        None => Some((Severity::Error, quoted(text, "' is not a valid integer"@))),
        Some(v) => if v < 0 {
            Some((Severity::Error, quoted(text, "' must be a non-negative integer"@)))
        } else {
            None
        },
    }
}

/// Checks the text of `<sat>` and `<number>`.
pub fn validate_non_negative_int(text: &str) -> (r: Option<(Severity, String)>)
    ensures
        finding_view(r) == spec_validate_non_negative_int(text@),
{
    let chars = chars_of(text);
    match parse_i64(chars.as_slice()) {
        None => Some((Severity::Error, concat3("'", text, "' is not a valid integer"))),
        Some(v) => {
            if v < 0 {
                Some((Severity::Error, concat3("'", text, "' must be a non-negative integer")))
            } else {
                None
            }
        },
    }
}

// ---------------------------------------------------------------- gYear

/// `b` is an ASCII digit byte.
pub open spec fn is_digit_byte(b: u8) -> bool {
    48 <= b && b <= 57
}

/// The first index at or after `from` whose byte is not a digit (or the length).
pub open spec fn digit_run_end(b: Seq<u8>, from: int) -> int
    decreases b.len() - from,
{
    if from >= b.len() || !is_digit_byte(b[from]) {
        from
    } else {
        digit_run_end(b, from + 1)
    }
}

/// A gYear time zone: nothing, `Z`, or `+hh:mm` / `-hh:mm`.
pub open spec fn is_gyear_zone(t: Seq<u8>) -> bool {
    ||| t.len() == 0
    ||| t.len() == 1 && t[0] == 90u8
    ||| t.len() == 6 && (t[0] == 43u8 || t[0] == 45u8) && is_digit_byte(t[1]) && is_digit_byte(t[2])
        && t[3] == 58u8 && is_digit_byte(t[4]) && is_digit_byte(t[5])
}

/// An `xsd:gYear` spelling: an optional `-`, at least four digits, then a zone.
pub open spec fn is_gyear(b: Seq<u8>) -> bool {
    let s: int = if b.len() > 0 && b[0] == 45u8 { 1 } else { 0 };
    &&& b.len() >= s + 4
    &&& forall|k: int| s <= k < s + 4 ==> is_digit_byte(#[trigger] b[k])
    &&& is_gyear_zone(b.subrange(digit_run_end(b, s + 4), b.len() as int))
}

proof fn lemma_digit_run_end(b: Seq<u8>, from: int, to: int)
    requires
        0 <= from <= to <= b.len(),
        forall|k: int| from <= k < to ==> is_digit_byte(#[trigger] b[k]),
        to == b.len() || !is_digit_byte(b[to]),
    ensures
        digit_run_end(b, from) == to,
    decreases to - from,
{
    if from < to {
        lemma_digit_run_end(b, from + 1, to);
    }
}

fn is_digit_u8(b: u8) -> (r: bool)
    ensures
        r == is_digit_byte(b),
{
    48 <= b && b <= 57
}

/// Whether `text` is an `xsd:gYear` value (checked on its UTF-8 bytes).
pub fn regex_simple_gyear(text: &str) -> (r: bool)
    ensures
        r == is_gyear(text.spec_bytes()),
{
    let bytes = text.as_bytes();
    let ghost b = text.spec_bytes();
    let mut idx: usize = 0;
    if bytes.len() > 0 && bytes[0] == 45u8 {
        idx = 1;
    }
    let s = idx;
    assert(s as int == (if b.len() > 0 && b[0] == 45u8 { 1int } else { 0int }));
    if bytes.len() < idx + 4 {
        return false;
    }
    let stop = idx + 4;
    let mut k: usize = idx;
    while k < stop
        invariant
            s <= k <= stop,
            stop == s + 4,
            stop <= bytes@.len(),
            s as int == (if b.len() > 0 && b[0] == 45u8 { 1int } else { 0int }),
            idx == s,
            bytes@ == b,
            b == text.spec_bytes(),
            forall|j: int| s <= j < k ==> is_digit_byte(#[trigger] b[j]),
        decreases stop - k,
    {
        if !is_digit_u8(bytes[k]) {
            assert(!is_digit_byte(b[k as int]));
            assert(!is_gyear(b));
            return false;
        }
        k = k + 1;
    }
    idx = idx + 4;
    while idx < bytes.len() && is_digit_u8(bytes[idx])
        invariant
            s + 4 <= idx <= bytes@.len(),
            bytes@ == b,
            forall|j: int| s + 4 <= j < idx ==> is_digit_byte(#[trigger] b[j]),
        decreases bytes.len() - idx,
    {
        idx = idx + 1;
    }
    proof {
        lemma_digit_run_end(b, s + 4, idx as int);
    }
    let ghost t = b.subrange(idx as int, b.len() as int);
    if idx == bytes.len() {
        return true;
    }
    if bytes[idx] == 90u8 && idx + 1 == bytes.len() {
        return true;
    }
    if bytes.len() - idx >= 6 && (bytes[idx] == 43u8 || bytes[idx] == 45u8) && bytes[idx + 3] == 58u8
        && is_digit_u8(bytes[idx + 1]) && is_digit_u8(bytes[idx + 2]) && is_digit_u8(bytes[idx + 4])
        && is_digit_u8(bytes[idx + 5]) && idx + 6 == bytes.len() {
        return true;
    }
    false
}

/// A `year` must be an `xsd:gYear` (checked on the UTF-8 encoding of `text`).
pub open spec fn spec_validate_gyear(text: Seq<char>) -> Option<Finding> {
    if is_gyear(encode_utf8(text)) {
        None
    } else {
        Some((Severity::Error, "invalid year '"@ + text + "' (must be a year, e.g. 2004)"@))
    }
}

/// Checks the text of `<year>`.
pub fn validate_gyear(text: &str) -> (r: Option<(Severity, String)>)
    ensures
        finding_view(r) == spec_validate_gyear(text@),
{
    if !regex_simple_gyear(text) {
        return Some((Severity::Error, concat3("invalid year '", text, "' (must be a year, e.g. 2004)")));
    }
    None
}


// ---------------------------------------------------------------- time

/// The index of the first `c` in `s`, if any.
pub open spec fn first_index(s: Seq<char>, c: char) -> Option<int>
    decreases s.len(),
{
    if s.len() == 0 {
        None
    } else {
        match first_index(s.drop_last(), c) {
            Some(k) => Some(k),
            None => if s.last() == c { Some(s.len() - 1) } else { None },
        }
    }
}

/// Whether a time stamp carries a zone: it ends in `Z`, or a `+`/`-` stands
/// after its `T` (after the start when there is no `T`).
pub open spec fn spec_has_timezone(s: Seq<char>) -> bool {
    let t = match first_index(s, 'T') {
        Some(k) => k,
        None => 0,
    };
    ||| s.len() > 0 && s.last() == 'Z'
    ||| exists|i: int| 0 <= i < s.len() && (s[i] == '+' || s[i] == '-') && i > t
}

/// Whether a time stamp carries a zone.
pub fn has_timezone(text: &str) -> (r: bool)
    ensures
        r == spec_has_timezone(text@),
{
    let s = chars_of(text);
    let n = s.len();
    if n > 0 && s[n - 1] == 'Z' {
        return true;
    }
    let mut t: usize = 0;
    let mut found = false;
    let mut i: usize = 0;
    while i < n
        invariant
            n == s@.len(),
            s@ == text@,
            i <= n,
            found ==> i > 0 && first_index(s@.take(i as int), 'T') == Some(t as int),
            !found ==> first_index(s@.take(i as int), 'T') is None && t == 0,
            found ==> t < n,
        decreases n - i,
    {
        assert(s@.take(i + 1).drop_last() =~= s@.take(i as int));
        if !found && s[i] == 'T' {
            found = true;
            t = i;
        }
        i = i + 1;
    }
    assert(s@.take(n as int) =~= s@);
    let mut j: usize = n;
    while j > 0
        invariant
            j <= n,
            n == s@.len(),
            s@ == text@,
            t == (match first_index(s@, 'T') { Some(k) => k, None => 0 }),
            forall|k: int| j <= k < n && (s@[k] == '+' || s@[k] == '-') ==> k <= t,
            !(n > 0 && s@[n - 1] == 'Z'),
        decreases j,
    {
        let c = s[j - 1];
        if c == '+' || c == '-' {
            let ghost w = j - 1;
            assert(s@[w] == '+' || s@[w] == '-');
            return j - 1 > t;
        }
        j = j - 1;
    }
    false
}

/// The layout of a time stamp without a zone that is still recognised.
pub const NAIVE_TIME_FORMAT: &'static str = "%Y-%m-%dT%H:%M:%S%.f";

/// The message for a time stamp without a zone.
pub open spec fn no_zone_message(text: Seq<char>) -> Seq<char> {
    "time '"@ + text + "' has no timezone (GPX timestamps should be in UTC)"@
}

/// A `time` must be an `xsd:dateTime`; one without a zone draws a warning.
pub open spec fn spec_validate_time(text: Seq<char>) -> Option<Finding> {
    if rfc3339_accepts(text) {
        if !spec_has_timezone(text) {
            Some((Severity::Warning, no_zone_message(text)))
        } else {
            None
        }
    } else if naive_format_accepts(text, NAIVE_TIME_FORMAT@) {
        Some((Severity::Warning, no_zone_message(text)))
    } else {
        Some((Severity::Error, "invalid time '"@ + text + "' (must be an ISO 8601 / xsd:dateTime value)"@))
    }
}

/// Checks the text of `<time>`.
pub fn validate_time(text: &str) -> (r: Option<(Severity, String)>)
    ensures
        finding_view(r) == spec_validate_time(text@),
{
    if parses_rfc3339(text) {
        if !has_timezone(text) {
            return Some((Severity::Warning, concat3("time '", text, "' has no timezone (GPX timestamps should be in UTC)")));
        }
        return None;
    }
    if parses_naive_datetime(text, NAIVE_TIME_FORMAT) {
        return Some((Severity::Warning, concat3("time '", text, "' has no timezone (GPX timestamps should be in UTC)")));
    }
    Some((Severity::Error, concat3("invalid time '", text, "' (must be an ISO 8601 / xsd:dateTime value)")))
}


// ---------------------------------------------------------------- dispatch

/// What each check reports for a value.
pub open spec fn spec_check(check: ContentCheck, text: Seq<char>) -> Option<Finding> {
    match check {
        ContentCheck::Version => spec_validate_version(text),
        ContentCheck::Time => spec_validate_time(text),
        ContentCheck::Decimal => spec_validate_decimal(text),
        ContentCheck::Degrees => spec_validate_degrees(text),
        ContentCheck::Latitude => spec_validate_latitude(text),
        ContentCheck::Longitude => spec_validate_longitude(text),
        ContentCheck::Fix => spec_validate_fix(text),
        ContentCheck::NonNegativeInt => spec_validate_non_negative_int(text),
        ContentCheck::Dgpsid => spec_validate_dgpsid(text),
        ContentCheck::GYear => spec_validate_gyear(text),
    }
}

/// Runs one check on a value.
pub fn run_check(check: ContentCheck, text: &str) -> (r: Option<(Severity, String)>)
    ensures
        finding_view(r) == spec_check(check, text@),
{
    match check {
        ContentCheck::Version => validate_version(text),
        ContentCheck::Time => validate_time(text),
        ContentCheck::Decimal => validate_decimal(text),
        ContentCheck::Degrees => validate_degrees(text),
        ContentCheck::Latitude => validate_latitude(text),
        ContentCheck::Longitude => validate_longitude(text),
        ContentCheck::Fix => validate_fix(text),
        ContentCheck::NonNegativeInt => validate_non_negative_int(text),
        ContentCheck::Dgpsid => validate_dgpsid(text),
        ContentCheck::GYear => validate_gyear(text),
    }
}

} // verus!
