//! Calendar date-times and durations as whole seconds.
//!
//! A date-time is the number of seconds from 1970-01-01 00:00:00 to it, reading the
//! calendar date-time as if it were UTC; it lies between -9999-01-01 00:00:00 and
//! 9999-12-31 23:59:59. A duration is a signed number of seconds. Adding a duration to
//! a date-time is defined only where the sum stays in that range.
use vstd::prelude::*;

verus! {

/// The seconds of -9999-01-01 00:00:00, the earliest date-time.
pub const MIN_DATE_TIME: i64 = -377705116800;

/// The seconds of 9999-12-31 23:59:59, the latest date-time.
pub const MAX_DATE_TIME: i64 = 253402300799;

/// `t` is the seconds of a date-time.
pub open spec fn in_range(t: int) -> bool {
    MIN_DATE_TIME <= t <= MAX_DATE_TIME
}

/// `t` is absent or the seconds of a date-time.
pub open spec fn opt_in_range(t: Option<i64>) -> bool {
    t matches Some(v) ==> in_range(v as int)
}

/// Whether `t` is the seconds of a date-time.
pub fn is_date_time(t: i128) -> (r: bool)
    ensures
        r == in_range(t as int),
{
    MIN_DATE_TIME as i128 <= t && t <= MAX_DATE_TIME as i128
}

/// The text that `time` writes for the date-time of the seconds `t` (its `Debug` form of a
/// `PrimitiveDateTime`, such as `2030-02-07 12:39:37.0`).
pub uninterp spec fn date_time_text(t: int) -> Seq<char>;

/// Writes the date-time of the seconds `t` as `time` writes a `PrimitiveDateTime` with
/// `{:?}`. Trusted: the text is that of `time`'s `Debug` impl for the date and time that
/// `OffsetDateTime::from_unix_timestamp` gives for `t`; it depends on `t` alone, and is
/// named, not stated. `t` lies in `time`'s range of date-times, so the conversion does
/// not fail.
#[verifier::external_body]
pub(crate) fn format_date_time(t: i64) -> (r: String)
    requires
        in_range(t as int),
    ensures
        r@ == date_time_text(t as int),
{
    match time::OffsetDateTime::from_unix_timestamp(t) {
        Ok(utc) => format!("{:?}", time::PrimitiveDateTime::new(utc.date(), utc.time())),
        Err(_) => String::new(),
    }
}

} // verus!
