//! Trusted access to `chrono`'s date-time parsing and formatting.

use vstd::prelude::*;

verus! {

/// Whether `chrono::DateTime::parse_from_rfc3339` accepts `text`. The answer
/// depends on `text` alone; its grammar is chrono's.
pub uninterp spec fn rfc3339_accepts(text: Seq<char>) -> bool;

/// Whether `chrono::NaiveDateTime::parse_from_str` accepts `text` under
/// `format`. The answer depends on the two strings alone.
pub uninterp spec fn naive_format_accepts(text: Seq<char>, format: Seq<char>) -> bool;

/// Calls `chrono::DateTime::parse_from_rfc3339` and reports whether it
/// succeeded; the contract ties the answer to `rfc3339_accepts`.
#[verifier::external_body]
pub(crate) fn parses_rfc3339(text: &str) -> (r: bool)
    ensures
        r == rfc3339_accepts(text@),
{
    chrono::DateTime::parse_from_rfc3339(text).is_ok()
}

/// Calls `chrono::NaiveDateTime::parse_from_str` and reports whether it
/// succeeded; the contract ties the answer to `naive_format_accepts`.
#[verifier::external_body]
pub(crate) fn parses_naive_datetime(text: &str, format: &str) -> (r: bool)
    ensures
        r == naive_format_accepts(text@, format@),
{
    chrono::NaiveDateTime::parse_from_str(text, format).is_ok()
}

/// The RFC 3339 text that chrono gives for the UTC instant `seconds`,
/// `nanos` (`DateTime::from_timestamp`, then `to_rfc3339`), or none when
/// chrono cannot represent the instant. It depends on the two numbers alone.
pub uninterp spec fn rfc3339_of(seconds: int, nanos: int) -> Option<Seq<char>>;

/// Calls `chrono::DateTime::from_timestamp` and `DateTime::to_rfc3339`; the
/// contract ties the text to `rfc3339_of`.
#[verifier::external_body]
pub(crate) fn rfc3339_text(seconds: i64, nanos: u32) -> (r: Option<String>)
    ensures
        match r {
            Some(s) => rfc3339_of(seconds as int, nanos as int) == Some(s@),
            None => rfc3339_of(seconds as int, nanos as int) is None,
        },
{
    chrono::DateTime::from_timestamp(seconds, nanos).map(|dt| dt.to_rfc3339())
}

} // verus!
