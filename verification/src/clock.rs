//! Trusted access to the clocks and to the local calendar.
//!
//! Everything here depends on when and where it is called — the
//! monotonic clock, the wall clock, the machine's time zone — so the
//! contracts state only what holds of every outcome, and the callers
//! take the returned values as given.

use vstd::prelude::*;

verus! {

/// Declares `std::time::Instant`, the monotonic clock's opaque
/// marker, so that a timer can hold one.
#[verifier::external_type_specification]
#[verifier::external_body]
pub struct ExInstant(std::time::Instant);

/// How far a chrono calendar date can lie from the common era's day
/// zero: chrono's `NaiveDate` spans roughly the years -262143 to
/// 262142, fewer than 100 million days either way.
pub const DAY_NUMBER_BOUND: i32 = 100_000_000;

/// Relies on `std::time::Instant::now`: an opaque marker on the
/// monotonic clock. Nothing can be promised of where it lies.
#[verifier::external_body]
pub(crate) fn instant_now() -> std::time::Instant {
    std::time::Instant::now()
}

/// Relies on `std::time::Instant::elapsed`: the whole seconds passed
/// since the marker was taken. The value depends on when the call is
/// made, so nothing is promised of it.
#[verifier::external_body]
pub(crate) fn elapsed_secs(start: &std::time::Instant) -> u64 {
    start.elapsed().as_secs()
}

/// Relies on `std::time::SystemTime::now` and `duration_since`: the
/// wall clock as seconds since the Unix epoch, 0 if the clock reads
/// earlier than the epoch. The value depends on when the call is made.
#[verifier::external_body]
pub(crate) fn now_epoch_secs() -> u64 {
    match std::time::SystemTime::now().duration_since(std::time::UNIX_EPOCH) {
        Ok(d) => d.as_secs(),
        Err(_) => 0,
    }
}

/// Relies on `chrono::DateTime::from_timestamp`, `with_timezone`,
/// `NaiveDateTime::checked_add_offset` and
/// `Datelike::num_days_from_ce`: the local calendar date of the given
/// epoch second, counted in days from the common era. The result
/// depends on the machine's time zone; every chrono date lies strictly
/// within `DAY_NUMBER_BOUND` days of day zero, and 0 stands in for a
/// timestamp chrono cannot place on a local calendar day — one out of
/// its range, or so near the range's ends that adding the zone's
/// offset would leave it.
#[verifier::external_body]
pub(crate) fn local_day_number(epoch_secs: i64) -> (r: i32)
    ensures
        -DAY_NUMBER_BOUND < r < DAY_NUMBER_BOUND,
{
    match chrono::DateTime::<chrono::Utc>::from_timestamp(epoch_secs, 0) {
        Some(t) => {
            let local = t.with_timezone(&chrono::Local);
            // the checked form of chrono's own local-datetime step,
            // which would panic at the ends of its representable range
            match local.naive_utc().checked_add_offset(chrono::Offset::fix(local.offset())) {
                Some(naive_local) => chrono::Datelike::num_days_from_ce(&naive_local.date()),
                None => 0,
            }
        },
        None => 0,
    }
}

/// Relies on `std::time::SystemTime::now` and `duration_since` for the
/// moment, and on [`local_day_number`] for its local calendar date:
/// today, counted in days from the common era. A wall clock reading
/// before the Unix epoch stands in as the epoch itself. The value
/// depends on the clock and the time zone; every chrono date lies
/// strictly within `DAY_NUMBER_BOUND` days of day zero.
#[verifier::external_body]
pub(crate) fn today_day_number() -> (r: i32)
    ensures
        -DAY_NUMBER_BOUND < r < DAY_NUMBER_BOUND,
{
    let secs: i64 = match std::time::SystemTime::now().duration_since(std::time::UNIX_EPOCH) {
        Ok(d) => {
            if d.as_secs() > i64::MAX as u64 {
                i64::MAX
            } else {
                d.as_secs() as i64
            }
        },
        Err(_) => 0,
    };
    local_day_number(secs)
}

} // verus!
