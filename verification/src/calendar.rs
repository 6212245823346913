//! Civil calendar conversion for time-axis labels.
//!
//! The only outside call of the crate: turning a timestamp into its
//! civil date and time under a fixed UTC offset.  Everything built on
//! top of the returned plain fields is verified.

use chrono::{Datelike, Timelike};
use vstd::prelude::*;

verus! {

/// The civil fields (year, month, day, hour, minute, second) of a
/// timestamp in milliseconds since the epoch, shifted east by an
/// offset in seconds: a pure function of its two arguments, computed
/// by the calendar library.
pub uninterp spec fn civil_of(ts_ms: int, offset_secs: int) -> (int, int, int, int, int, int);

/// Relies on chrono's `DateTime::from_timestamp_millis`,
/// `FixedOffset::east_opt` and `DateTime::with_timezone`, and on the
/// `Datelike`/`Timelike` accessors: month is 1-12, day 1-31, hour
/// below 24, minute and second below 60, and the whole result depends
/// on the two arguments alone.  The timestamp bound keeps the moment
/// inside chrono's calendar range; the offset bound is what
/// `east_opt` accepts.
#[verifier::external_body]
pub(crate) fn civil_parts(ts_ms: i64, offset_secs: i32) -> (r: (i32, u8, u8, u8, u8, u8))
    requires
        -8_050_000_000_000_000 <= ts_ms <= 8_050_000_000_000_000,
        -86_400 < offset_secs < 86_400,
    ensures
        (r.0 as int, r.1 as int, r.2 as int, r.3 as int, r.4 as int, r.5 as int) == civil_of(
            ts_ms as int, offset_secs as int),
        1 <= r.1 <= 12,
        1 <= r.2 <= 31,
        r.3 < 24,
        r.4 < 60,
        r.5 < 60,
        -400_000 <= r.0 <= 400_000,
{
    let dt = chrono::DateTime::from_timestamp_millis(ts_ms).unwrap();
    let off = chrono::FixedOffset::east_opt(offset_secs).unwrap();
    let local = dt.with_timezone(&off);
    (
        local.year(),
        local.month() as u8,
        local.day() as u8,
        local.hour() as u8,
        local.minute() as u8,
        local.second() as u8,
    )
}

} // verus!
