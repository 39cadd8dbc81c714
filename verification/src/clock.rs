//! Calls into `chrono`: the current time, and reading and writing the
//! timestamp texts that BGG uses.

use crate::model::Timestamp;
use vstd::prelude::*;

verus! {

/// The current UTC time, as `chrono::Utc::now` reports it. Nothing is
/// promised of the value: it depends on the clock.
#[verifier::external_body]
pub(crate) fn now() -> (t: Timestamp) {
    let t = chrono::Utc::now();
    Timestamp { secs: t.timestamp(), nanos: t.timestamp_subsec_nanos() }
}

/// What `chrono::NaiveDateTime::parse_from_str(text, format)` yields, read as
/// UTC: the seconds and nanoseconds since the epoch, or `None` when the text
/// does not match the format.
pub uninterp spec fn naive_utc_parse(text: Seq<char>, format: Seq<char>) -> Option<(i64, u32)>;

/// Calls `chrono::NaiveDateTime::parse_from_str` and reads the result as UTC;
/// the result is named by `naive_utc_parse`.
#[verifier::external_body]
pub(crate) fn parse_naive_utc(text: &str, format: &str) -> (r: Option<(i64, u32)>)
    ensures
        r == naive_utc_parse(text@, format@),
{
    chrono::NaiveDateTime::parse_from_str(text, format).ok().map(
        |dt| (dt.and_utc().timestamp(), dt.and_utc().timestamp_subsec_nanos()),
    )
}

/// The format BGG writes its collection timestamps in.
pub open spec fn bgg_datetime_format() -> Seq<char> {
    "%Y-%m-%d %H:%M:%S"@
}

/// The format BGG reads `modifiedsince` in.
pub open spec fn bgg_since_format() -> Seq<char> {
    "%y-%m-%d %H:%M:%S"@
}

/// What `chrono::DateTime::<Utc>::from_timestamp(secs, nanos)` formatted with
/// `format` writes, or `None` when the timestamp is out of chrono's range.
pub uninterp spec fn utc_format(secs: i64, nanos: u32, format: Seq<char>) -> Option<Seq<char>>;

/// Calls `chrono::DateTime::from_timestamp` and, when it is in range,
/// `format(..).to_string()`; the result is named by `utc_format`. Only the
/// `modifiedsince` format is passed: chrono's `to_string` panics on a
/// malformed format.
#[verifier::external_body]
pub(crate) fn format_utc(secs: i64, nanos: u32, format: &str) -> (r: Option<String>)
    requires
        format@ == bgg_since_format(),
    ensures
        match r {
            Some(s) => utc_format(secs, nanos, format@) == Some(s@),
            None => utc_format(secs, nanos, format@) is None,
        },
{
    chrono::DateTime::from_timestamp(secs, nanos).map(|d| d.format(format).to_string())
}

} // verus!
