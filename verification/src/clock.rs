//! Reading the clocks: the wall clock for calendar dates, the monotonic clock for ages.

use vstd::prelude::*;

verus! {

/// `std::time::Instant`, a reading of the monotonic clock; opaque to proofs.
#[verifier::external_type_specification]
#[verifier::external_body]
pub struct ExInstant(std::time::Instant);

/// `SystemTime::now()`, as whole seconds since the Unix epoch; `None` when the clock reads a
/// time before 1970. Nothing is promised of the value: it is whatever the clock says.
#[verifier::external_body]
pub(crate) fn unix_now_secs() -> (r: Option<u64>) {
    std::time::SystemTime::now().duration_since(std::time::UNIX_EPOCH).ok().map(|d| d.as_secs())
}

/// `Instant::now()`: the current reading of the monotonic clock. Nothing is promised of it.
#[verifier::external_body]
pub(crate) fn instant_now() -> (r: std::time::Instant) {
    std::time::Instant::now()
}

/// `Instant::elapsed`, in whole nanoseconds: the time since `t` by the monotonic clock, 0 when
/// `t` lies ahead, `u64::MAX` past some 584 years. Nothing is promised of the value: it depends
/// on when the call is made.
#[verifier::external_body]
pub(crate) fn nanos_since(t: &std::time::Instant) -> (r: u64) {
    u64::try_from(t.elapsed().as_nanos()).unwrap_or(u64::MAX)
}

/// `Instant::elapsed`, in whole seconds (`Duration::as_secs`): the time since `t` by the
/// monotonic clock, 0 when `t` lies ahead. Nothing is promised of the value: it depends on when
/// the call is made.
#[verifier::external_body]
pub(crate) fn secs_since(t: &std::time::Instant) -> (r: u64) {
    t.elapsed().as_secs()
}

} // verus!
