//! Durations, as `std::time::Duration` holds them.

use std::time::Duration;

use vstd::prelude::*;

verus! {

/// The `Duration` of `secs` whole seconds and `nanos` more nanoseconds, as
/// `Duration::new` builds it.
pub uninterp spec fn duration_of(secs: u64, nanos: u32) -> Duration;

/// The whole seconds in `d`, as `Duration::as_secs` reads them.
pub uninterp spec fn whole_secs(d: Duration) -> u64;

/// Calls `Duration::new`. Claimed: the result depends on the arguments alone
/// (named `duration_of`), and, as the documentation of `new` and `as_secs`
/// says, it holds `secs` whole seconds when `nanos` is below one second (so
/// that nothing carries over and nothing can overflow).
#[verifier::external_body]
pub(crate) fn new_duration(secs: u64, nanos: u32) -> (d: Duration)
    requires
        nanos < 1_000_000_000,
    ensures
        d == duration_of(secs, nanos),
        whole_secs(d) == secs,
{
    Duration::new(secs, nanos)
}

/// Calls `Duration::as_secs`. Claimed: the result depends on `d` alone and is
/// named `whole_secs(d)`.
#[verifier::external_body]
pub(crate) fn duration_secs(d: Duration) -> (s: u64)
    ensures
        s == whole_secs(d),
{
    d.as_secs()
}

/// The duration of `ns` nanoseconds.
pub open spec fn nanos(ns: u64) -> Duration {
    duration_of(ns / 1_000_000_000, (ns % 1_000_000_000) as u32)
}

/// Builds the duration of `ns` nanoseconds.
pub fn from_nanos(ns: u64) -> (d: Duration)
    ensures
        d == nanos(ns),
        whole_secs(d) == ns / 1_000_000_000,
{
    let sub: u64 = ns % 1_000_000_000;
    new_duration(ns / 1_000_000_000, sub as u32)
}

} // verus!
