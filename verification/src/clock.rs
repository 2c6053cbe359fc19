//! The wall clock and the two timestamp labels the vault writes.

use vstd::prelude::*;

use chrono::{DateTime, Utc};

verus! {

/// What the wall clock reads, as milliseconds since the Unix epoch.
/// Relies on chrono's `Utc::now` and `DateTime::timestamp_millis`. Nothing
/// is assumed of the value: the host clock can read anything. `Utc::now`
/// aborts on a host whose clock cannot be represented at all; that is an
/// environment failure, not an input, so no precondition can rule it out.
#[verifier::external_body]
pub(crate) fn now_millis() -> i64 {
    Utc::now().timestamp_millis()
}

/// The text that the date-and-time label of instant `t` formats to.
pub uninterp spec fn datetime_label_of(t: int) -> Seq<char>;

/// The text that the compact filename stamp of instant `t` formats to.
pub uninterp spec fn stamp_label_of(t: int) -> Seq<char>;

/// The human-readable date-and-time label of instant `t` (milliseconds since
/// the Unix epoch), e.g. `2024-01-02 03:04:05 UTC`.
/// Relies on chrono's `DateTime::from_timestamp_millis` and its strftime
/// formatting with `%Y-%m-%d %H:%M:%S UTC`: the output is a pure function of
/// the instant, and for instants at or after the epoch every field is a
/// zero-padded decimal number, so no two dashes are ever adjacent.
#[verifier::external_body]
pub(crate) fn format_datetime_label(t: i64) -> (r: String)
    ensures
        r@ == datetime_label_of(t as int),
        t >= 0 ==> forall|i: int| 0 < i < r@.len() ==> !(r@[i - 1] == '-' && #[trigger] r@[i]
            == '-'),
{
    match DateTime::<Utc>::from_timestamp_millis(t) {
        Some(d) => format!("{}", d.format("%Y-%m-%d %H:%M:%S UTC")),
        None => String::new(),
    }
}

/// The compact filename stamp of instant `t`, e.g. `20240102_030405`.
/// Relies on chrono's `DateTime::from_timestamp_millis` and its strftime
/// formatting with `%Y%m%d_%H%M%S`: the output is a pure function of the
/// instant.
#[verifier::external_body]
pub(crate) fn format_stamp_label(t: i64) -> (r: String)
    ensures
        r@ == stamp_label_of(t as int),
{
    match DateTime::<Utc>::from_timestamp_millis(t) {
        Some(d) => format!("{}", d.format("%Y%m%d_%H%M%S")),
        None => String::new(),
    }
}

} // verus!
