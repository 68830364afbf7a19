//! Points in time, as the package indexes report them.

use vstd::prelude::*;

verus! {

/// A point in time: seconds since the Unix epoch (negative before it) and
/// the nanoseconds into that second.
#[derive(Debug, Clone, Copy, PartialEq, Eq, Structural)]
pub struct Timestamp {
    pub secs: i64,
    pub nanos: u32,
}

/// The RFC 3339 text, in UTC with microseconds and a `Z` suffix, of the
/// instant `secs` seconds and `nanos` nanoseconds after the Unix epoch;
/// `None` when chrono cannot represent that instant.
pub uninterp spec fn rfc3339_micros(secs: i64, nanos: u32) -> Option<Seq<char>>;

/// Calls `chrono::DateTime::from_timestamp` and then
/// `to_rfc3339_opts(SecondsFormat::Micros, true)`. The result is named by
/// `rfc3339_micros`; how the calendar date is computed is not stated.
#[verifier::external_body]
pub(crate) fn format_rfc3339_micros(t: Timestamp) -> (r: Option<String>)
    ensures
        match r {
            Some(s) => rfc3339_micros(t.secs, t.nanos) == Some(s@),
            None => rfc3339_micros(t.secs, t.nanos) is None,
        },
{
    match chrono::DateTime::from_timestamp(t.secs, t.nanos) {
        Some(d) => Some(d.to_rfc3339_opts(chrono::SecondsFormat::Micros, true)),
        None => None,
    }
}

/// The text that `Display` gives of the `chrono::DateTime<Utc>` at `secs`
/// seconds and `nanos` nanoseconds after the Unix epoch (such as
/// `2003-12-13 18:30:02 UTC`); `None` when chrono cannot represent that
/// instant.
pub uninterp spec fn utc_display(secs: i64, nanos: u32) -> Option<Seq<char>>;

/// Calls `chrono::DateTime::from_timestamp` and then formats the instant
/// with `Display`. The result is named by `utc_display`; the calendar
/// computation is not stated.
#[verifier::external_body]
pub(crate) fn format_utc(t: Timestamp) -> (r: Option<String>)
    ensures
        match r {
            Some(s) => utc_display(t.secs, t.nanos) == Some(s@),
            None => utc_display(t.secs, t.nanos) is None,
        },
{
    chrono::DateTime::from_timestamp(t.secs, t.nanos).map(|d| d.to_string())
}

} // verus!
