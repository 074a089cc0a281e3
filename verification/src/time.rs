//! The clock and the calendar formatter, from the chrono crate, behind
//! trusted declarations; and the verified choice of text for a timestamp.

use vstd::prelude::*;

use chrono::TimeZone;

use crate::digits::{spec_u64_str, u64_to_digits};
use crate::strutil::chars_to_string;
use crate::todo::MAX_TIMESTAMP;

verus! {

/// The calendar text of a timestamp: what the formatter writes for that
/// number of seconds. UTC and a fixed format, so a function of the seconds
/// alone.
pub uninterp spec fn formatted_of(ts: u64) -> Seq<char>;

/// Relies on chrono's `Utc::now`: the current Unix time in whole seconds.
/// Nothing is promised of the value; verified callers state what holds of
/// every timestamp they are handed.
#[verifier::external_body]
pub fn get_current_timestamp() -> u64 {
    chrono::Utc::now().timestamp() as u64
}

/// Relies on chrono's `TimeZone::timestamp_opt` and `DateTime::format`:
/// for an in-range number of seconds the result is `Single` and the text
/// `"%Y-%m-%d %H:%M:%S"` depends on the seconds alone; out of range it is
/// `None`. Seconds up to `MAX_TIMESTAMP` (year 9999) are well inside the
/// range chrono's calendar covers.
#[verifier::external_body]
pub fn format_timestamp(ts: u64) -> (r: Option<String>)
    ensures
        r matches Some(s) ==> s@ == formatted_of(ts),
        ts <= MAX_TIMESTAMP ==> r is Some,
{
    match chrono::Utc.timestamp_opt(ts as i64, 0) {
        chrono::MappedLocalTime::Single(dt) => Some(dt.format("%Y-%m-%d %H:%M:%S").to_string()),
        chrono::MappedLocalTime::Ambiguous(_, _) => None,
        chrono::MappedLocalTime::None => None,
    }
}

/// The text shown for an in-range timestamp: its calendar form.
pub fn timestamp_text(ts: u64) -> (r: String)
    requires
        ts <= MAX_TIMESTAMP,
    ensures
        r@ == formatted_of(ts),
{
    match format_timestamp(ts) {
        Some(s) => s,
        None => unreached(),
    }
}

/// The decimal text of a number, for ids and counts.
pub fn u64_to_string(n: u64) -> (r: String)
    ensures
        r@ == spec_u64_str(n),
{
    let d = u64_to_digits(n);
    chars_to_string(&d)
}

} // verus!
