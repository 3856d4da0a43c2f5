//! The monotonic clock, and times as nanosecond counts.

use vstd::prelude::*;

use std::time::Instant;

verus! {

#[verifier::external_type_specification]
#[verifier::external_body]
pub struct ExInstant(std::time::Instant);

/// Calls `Instant::now`. What it returns is the time, so nothing is stated
/// of it.
#[verifier::external_body]
pub(crate) fn instant_now() -> (r: Instant) {
    Instant::now()
}

/// Calls `Instant::elapsed` on `origin`, in whole nanoseconds, saturated at
/// `u64::MAX`. What it returns depends on the time, so nothing is stated of
/// it.
#[verifier::external_body]
pub(crate) fn nanos_since(origin: &Instant) -> (r: u64) {
    u64::try_from(origin.elapsed().as_nanos()).unwrap_or(u64::MAX)
}

/// Seconds as nanoseconds, saturating at `u64::MAX`.
pub open spec fn secs_to_nanos(secs: u64) -> u64 {
    if secs * 1_000_000_000 > u64::MAX {
        u64::MAX
    } else {
        (secs * 1_000_000_000) as u64
    }
}

/// A time to live of `secs` seconds in nanoseconds, saturating.
pub fn secs_as_nanos(secs: u64) -> (r: u64)
    ensures
        r == secs_to_nanos(secs),
{
    match secs.checked_mul(1_000_000_000) {
        Some(n) => n,
        None => u64::MAX,
    }
}

/// Milliseconds as nanoseconds, saturating at `u64::MAX`.
pub open spec fn millis_to_nanos(millis: u64) -> u64 {
    if millis * 1_000_000 > u64::MAX {
        u64::MAX
    } else {
        (millis * 1_000_000) as u64
    }
}

/// A time to live of `millis` milliseconds in nanoseconds, saturating.
pub fn millis_as_nanos(millis: u64) -> (r: u64)
    ensures
        r == millis_to_nanos(millis),
{
    match millis.checked_mul(1_000_000) {
        Some(n) => n,
        None => u64::MAX,
    }
}

/// An entry inserted at `inserted_at` with time to live `ttl` has expired at
/// `now` once more than `ttl` has passed.
pub open spec fn expired_at(inserted_at: u64, ttl: u64, now: u64) -> bool {
    now > inserted_at as int + ttl as int
}

pub fn is_expired_at(inserted_at: u64, ttl: u64, now: u64) -> (r: bool)
    ensures
        r == expired_at(inserted_at, ttl, now),
{
    now > inserted_at && now - inserted_at > ttl
}

} // verus!
