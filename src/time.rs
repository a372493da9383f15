//! Timestamps, carried as plain parts and written as RFC 3339 text by the
//! chrono crate.
use vstd::prelude::*;
use chrono::TimeZone;

verus! {

/// The RFC 3339 text of the instant `secs` seconds and `nanos` nanoseconds
/// after the Unix epoch, shown at `offset` seconds east of UTC; `None` where
/// chrono does not accept the parts.
pub uninterp spec fn rfc3339_text(secs: i64, nanos: u32, offset: i32) -> Option<Seq<char>>;

/// The parts (seconds, nanoseconds, offset) of the instant that RFC 3339
/// text `s` denotes, if it denotes one.
pub uninterp spec fn rfc3339_parts(s: Seq<char>) -> Option<(i64, u32, i32)>;

/// Relies on chrono's `FixedOffset::east_opt`, `TimeZone::timestamp_opt`
/// and `DateTime::to_rfc3339`: the text, a function of the parts alone.
#[verifier::external_body]
pub(crate) fn format_rfc3339(secs: i64, nanos: u32, offset: i32) -> (r: Option<String>)
    ensures
        match r {
            Some(t) => rfc3339_text(secs, nanos, offset) == Some(t@),
            None => rfc3339_text(secs, nanos, offset) is None,
        },
{
    match chrono::FixedOffset::east_opt(offset) {
        Some(o) => match o.timestamp_opt(secs, nanos).single() {
            Some(d) => Some(d.to_rfc3339()),
            None => None,
        },
        None => None,
    }
}

/// Relies on chrono's `DateTime::parse_from_rfc3339`, with `timestamp`,
/// `timestamp_subsec_nanos` and `FixedOffset::local_minus_utc` to read the
/// parts: a function of the text alone.
#[verifier::external_body]
pub(crate) fn parse_rfc3339(s: &str) -> (r: Option<(i64, u32, i32)>)
    ensures
        r == rfc3339_parts(s@),
{
    match chrono::DateTime::parse_from_rfc3339(s) {
        Ok(d) => Some((d.timestamp(), d.timestamp_subsec_nanos(), d.offset().local_minus_utc())),
        Err(_) => None,
    }
}

} // verus!
