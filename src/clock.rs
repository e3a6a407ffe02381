//! The monotonic clock that deadlines are measured on, in milliseconds since a start.
use vstd::prelude::*;

verus! {

#[verifier::external_type_specification]
#[verifier::external_body]
pub struct ExSteadyTime(time::SteadyTime);

/// Relies on time::SteadyTime::now: an instant of the steady clock. Nothing is known of
/// which instant.
pub assume_specification[ time::SteadyTime::now ]() -> time::SteadyTime;

/// Relies on `Sub for time::SteadyTime` and time::Duration::num_milliseconds: the
/// whole milliseconds from `start` to `now`, which depend on the clock's readings.
/// The subtraction panics only for a difference beyond the range of `Duration`
/// (about 292 million years), which two readings of one steady clock do not reach.
#[verifier::external_body]
fn millis_between(start: &time::SteadyTime, now: &time::SteadyTime) -> (r: i64) {
    (*now - *start).num_milliseconds()
}

/// A steady clock that counts milliseconds from the moment it was made.
pub struct Clock {
    start: time::SteadyTime,
}

impl Clock {
    pub fn new() -> Clock {
        Clock { start: time::SteadyTime::now() }
    }

    /// Milliseconds since the clock was made; a reading before the start counts as 0.
    pub fn elapsed_ms(&self) -> (r: u64)
        ensures
            r <= i64::MAX,
    {
        let now = time::SteadyTime::now();
        Self::to_ms(millis_between(&self.start, &now))
    }

    /// The millisecond count for a signed difference: negative differences are 0.
    pub fn to_ms(diff: i64) -> (r: u64)
        ensures
            diff >= 0 ==> r == diff,
            diff < 0 ==> r == 0,
    {
        if diff < 0 {
            0
        } else {
            diff as u64
        }
    }
}

} // verus!
