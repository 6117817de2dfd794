//! Times in milliseconds since the Unix epoch.

use std::time::{Duration, SystemTime, UNIX_EPOCH};
use vstd::prelude::*;

verus! {

/// The system time of `std`.
#[verifier::external_type_specification]
#[verifier::external_body]
pub struct ExSystemTime(std::time::SystemTime);

/// How many nanoseconds after the Unix epoch a time is; negative before it.
pub uninterp spec fn epoch_nanos(time: std::time::SystemTime) -> int;

/// How many nanoseconds a duration lasts.
pub uninterp spec fn nanos_of(duration: core::time::Duration) -> nat;

/// Calls `SystemTime::now`. Trusted: nothing is claimed of the time.
#[verifier::external_body]
fn current_time() -> (time: SystemTime) {
    SystemTime::now()
}

/// Calls `SystemTime::duration_since` with the Unix epoch. Trusted: it fails
/// for a time before the epoch and for no other, and then gives how long after
/// the epoch the time is.
#[verifier::external_body]
fn duration_since_epoch(time: SystemTime) -> (duration: Option<Duration>)
    ensures
        duration is Some <==> epoch_nanos(time) >= 0,
        duration is Some ==> nanos_of(duration->0) == epoch_nanos(time),
{
    time.duration_since(UNIX_EPOCH).ok()
}

/// Calls `Duration::as_millis`. Trusted: it gives the whole milliseconds of
/// the duration.
#[verifier::external_body]
fn duration_millis(duration: Duration) -> (millis: u128)
    ensures
        millis == nanos_of(duration) / 1_000_000,
{
    duration.as_millis()
}

/// Milliseconds, where an `i64` can hold them.
pub open spec fn signed_millis(millis: int) -> Option<i64> {
    if millis <= i64::MAX {
        Some(millis as i64)
    } else {
        None
    }
}

/// The whole milliseconds of a time since the epoch: none before the epoch,
/// and none beyond what an `i64` can hold.
pub open spec fn time_millis(time: SystemTime) -> Option<i64> {
    if epoch_nanos(time) >= 0 {
        signed_millis(epoch_nanos(time) / 1_000_000)
    } else {
        None
    }
}

/// Milliseconds, where an `i64` can hold them.
pub fn millis_to_ms(millis: u128) -> (ms: Option<i64>)
    ensures
        ms == signed_millis(millis as int),
{
    if millis <= i64::MAX as u128 {
        Some(millis as i64)
    } else {
        None
    }
}

/// The milliseconds of a time since the Unix epoch.
pub fn system_time_to_ms(time: SystemTime) -> (ms: Option<i64>)
    ensures
        ms == time_millis(time),
        ms is Some ==> ms->0 >= 0,
{
    match duration_since_epoch(time) {
        Some(duration) => millis_to_ms(duration_millis(duration)),
        None => None,
    }
}

/// Milliseconds that may be missing, with zero for those that are.
pub open spec fn or_zero(ms: Option<i64>) -> i64 {
    match ms {
        Some(held) => held,
        None => 0,
    }
}

/// Milliseconds that may be missing, with zero for those that are.
pub fn ms_or_zero(ms: Option<i64>) -> (held: i64)
    ensures
        held == or_zero(ms),
{
    match ms {
        Some(held) => held,
        None => 0,
    }
}

/// The milliseconds of the present since the Unix epoch; zero where they
/// cannot be told. Which time the clock shows is not stated.
pub fn now_ms() -> (ms: i64)
    ensures
        exists|time: SystemTime| ms == or_zero(#[trigger] time_millis(time)),
        ms >= 0,
{
    let time = current_time();
    ms_or_zero(system_time_to_ms(time))
}

/// The clock's milliseconds follow the clock: of two times that can both be
/// told, the later one has no fewer.
pub proof fn law_millis_follow_time(a: SystemTime, b: SystemTime)
    requires
        epoch_nanos(a) <= epoch_nanos(b),
        time_millis(a) is Some,
        time_millis(b) is Some,
    ensures
        time_millis(a)->0 <= time_millis(b)->0,
{
}

/// A time is told by the whole milliseconds that have passed since the epoch:
/// that many, and less than one more.
pub proof fn law_millis_are_whole(time: SystemTime, ms: i64, rest: int)
    requires
        ms >= 0,
        0 <= rest < 1_000_000,
        epoch_nanos(time) == ms * 1_000_000 + rest,
    ensures
        time_millis(time) == Some(ms),
        or_zero(time_millis(time)) == ms,
{
    assert(epoch_nanos(time) / 1_000_000 == ms);
}

/// A time before the epoch, and one that is further off than an `i64` of
/// milliseconds, cannot be told; then zero stands for it.
pub proof fn law_some_times_cannot_be_told(time: SystemTime)
    ensures
        time_millis(time) is None <==> epoch_nanos(time) < 0 || epoch_nanos(time)
            >= 9_223_372_036_854_775_808 * 1_000_000,
        time_millis(time) is None ==> or_zero(time_millis(time)) == 0,
{
}

/// Milliseconds are held where an `i64` can hold them, and only there.
pub proof fn law_millis_are_held(millis: nat, held: i64)
    ensures
        millis == held ==> signed_millis(millis as int) == Some(held),
        millis >= 9_223_372_036_854_775_808 ==> signed_millis(millis as int) is None,
        or_zero(Some(held)) == held,
        or_zero(None) == 0,
{
}

} // verus!
