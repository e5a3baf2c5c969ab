//! Timestamps: records carry their timestamp as RFC 3339 text under the
//! metadata key `timestamp`; queries compare the parsed value.

use vstd::prelude::*;
use crate::record::LogInfo;
use crate::record::LogInfoV;
use crate::record::MetaVal;
use crate::record::MetaValue;
use crate::assoc::assoc_find;

verus! {

/// The instant that a piece of RFC 3339 text denotes, in microseconds since
/// the Unix epoch, or nothing when the text is not a valid timestamp.
pub uninterp spec fn ts_of(s: Seq<char>) -> Option<i64>;

/// Relies on chrono::DateTime::parse_from_rfc3339, reading the parsed
/// instant out with chrono::DateTime::timestamp_micros: both depend on the
/// characters alone.
#[verifier::external_body]
fn parse_rfc3339_micros(s: &str) -> (r: Option<i64>)
    ensures
        r == ts_of(s@),
{
    match chrono::DateTime::parse_from_rfc3339(s) {
        Ok(dt) => Some(dt.timestamp_micros()),
        Err(_) => None,
    }
}

/// The timestamp of a record: the parse of its `timestamp` metadata entry,
/// when that entry is text.
pub open spec fn spec_entry_timestamp(e: LogInfoV) -> Option<i64> {
    match assoc_find(e.meta, "timestamp"@) {
        Some(MetaVal::Str(s)) => ts_of(s),
        _ => None,
    }
}

/// Read a record's timestamp.
pub fn entry_timestamp(e: &LogInfo) -> (r: Option<i64>)
    ensures
        r == spec_entry_timestamp(e@),
{
    match e.get_meta("timestamp") {
        Some(MetaValue::Str(s)) => parse_rfc3339_micros(s.as_str()),
        _ => None,
    }
}

/// Order on optional timestamps, a record without one coming first.
pub open spec fn ts_le(a: Option<i64>, b: Option<i64>) -> bool {
    match (a, b) {
        (None, _) => true,
        (Some(_), None) => false,
        (Some(x), Some(y)) => x <= y,
    }
}

/// Compare two optional timestamps.
pub fn ts_le_exec(a: Option<i64>, b: Option<i64>) -> (r: bool)
    ensures
        r == ts_le(a, b),
{
    match (a, b) {
        (Option::None, _) => true,
        (Option::Some(_), Option::None) => false,
        (Option::Some(x), Option::Some(y)) => x <= y,
    }
}

} // verus!
