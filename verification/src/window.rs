//! The observation window: the two hours before sunset, sampled every
//! thirty seconds.

use vstd::prelude::*;

verus! {

/// How many hours before sunset the observation window opens.
pub const OBSERVATION_OFFSET_HOURS: i64 = 2;

/// Seconds between two samples of the observation window.
pub const CALCULATION_INTERVAL_SECONDS: i64 = 30;

/// The number of sampling steps in the window: two hours of thirty-second
/// steps.
pub open spec fn observation_steps() -> int {
    240
}

/// The local time of sample `i` of the window that closes at `sunset`.
pub open spec fn sample_time(sunset: int, i: int) -> int {
    sunset - 7200 + 30 * i
}

/// The number of sampling steps in the observation window; the window has
/// one sample more, its first at the opening and its last at sunset.
pub fn observation_step_count() -> (n: i64)
    ensures
        n == observation_steps(),
{
    OBSERVATION_OFFSET_HOURS * 60 * 60 / CALCULATION_INTERVAL_SECONDS
}

/// The local times of all samples of the window that closes at `sunset`,
/// from two hours before sunset up to sunset, every thirty seconds.
pub fn observation_times(sunset: i64) -> (times: Vec<i64>)
    requires
        i64::MIN + 7200 <= sunset,
    ensures
        times.len() == observation_steps() + 1,
        forall|i: int| 0 <= i < times.len() ==> times[i] == sample_time(sunset as int, i),
{
    let start = sunset - OBSERVATION_OFFSET_HOURS * 60 * 60;
    let steps = observation_step_count();
    let mut times: Vec<i64> = Vec::new();
    let mut i: i64 = 0;
    while i <= steps
        invariant
            steps == observation_steps(),
            start == sunset - 7200,
            0 <= i <= steps + 1,
            times.len() == i,
            forall|k: int| 0 <= k < i ==> times[k] == sample_time(sunset as int, k),
        decreases steps + 1 - i,
    {
        times.push(start + i * CALCULATION_INTERVAL_SECONDS);
        i = i + 1;
    }
    times
}

/// The window closes at sunset, opens two hours before it, and its samples
/// follow each other thirty seconds apart.
pub proof fn law_window_spans_two_hours_before_sunset(sunset: int, i: int)
    requires
        0 <= i < observation_steps(),
    ensures
        sample_time(sunset, 0) == sunset - 7200,
        sample_time(sunset, observation_steps()) == sunset,
        sample_time(sunset, i + 1) == sample_time(sunset, i) + 30,
        sample_time(sunset, 0) <= sample_time(sunset, i) < sunset,
{
}

} // verus!
