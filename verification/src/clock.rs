//! Clock arithmetic on whole seconds.

use vstd::prelude::*;

verus! {

/// Seconds in one day.
pub const SECONDS_PER_DAY: i64 = 86400;

/// Seconds in one hour.
pub const SECONDS_PER_HOUR: i64 = 3600;

/// Seconds in one minute.
pub const SECONDS_PER_MINUTE: i64 = 60;

/// The number of seconds that `hour` hours, `minute` minutes and `second`
/// seconds make.
pub open spec fn hms_seconds(hour: int, minute: int, second: int) -> int {
    hour * 3600 + minute * 60 + second
}

/// Whether `hour`, `minute` and `second` can be added up in `i64` without
/// overflow, the partial sums included.
pub open spec fn hms_fits(hour: int, minute: int, second: int) -> bool {
    &&& i64::MIN <= hour * 3600 <= i64::MAX
    &&& i64::MIN <= minute * 60 <= i64::MAX
    &&& i64::MIN <= hour * 3600 + minute * 60 <= i64::MAX
    &&& i64::MIN <= hms_seconds(hour, minute, second) <= i64::MAX
}

/// A count of seconds split into whole days and a time of day.
#[derive(Clone, Copy, Debug, PartialEq, Eq, Structural)]
pub struct DaySplit {
    pub day_offset: i64,
    pub hour: i64,
    pub minute: i64,
    pub second: i64,
}

/// The split of `total` seconds: whole days rounded towards minus infinity,
/// and the hours, minutes and seconds of what is left of the day.
pub open spec fn split_spec(total: int) -> (int, int, int, int) {
    let in_day = total % 86400;
    (total / 86400, in_day / 3600, (in_day % 3600) / 60, in_day % 60)
}

/// Whether `split` is the split of `total` seconds.
pub open spec fn is_split_of(split: DaySplit, total: int) -> bool {
    (split.day_offset as int, split.hour as int, split.minute as int, split.second as int)
        == split_spec(total)
}

/// Adds up hours, minutes and seconds into seconds.
pub fn total_seconds(hour: i64, minute: i64, second: i64) -> (total: i64)
    requires
        hms_fits(hour as int, minute as int, second as int),
    ensures
        total == hms_seconds(hour as int, minute as int, second as int),
{
    hour * SECONDS_PER_HOUR + minute * SECONDS_PER_MINUTE + second
}

/// Splits `total` seconds into whole days (rounded towards minus infinity)
/// and the hour, minute and second of the day that is left.
pub fn split_total_seconds(total: i64) -> (split: DaySplit)
    ensures
        is_split_of(split, total as int),
        0 <= split.hour < 24,
        0 <= split.minute < 60,
        0 <= split.second < 60,
        total == split.day_offset * 86400 + hms_seconds(
            split.hour as int,
            split.minute as int,
            split.second as int,
        ),
{
    let day_offset = match total.checked_div_euclid(SECONDS_PER_DAY) {
        Some(q) => q,
        None => 0,
    };
    let in_day = match total.checked_rem_euclid(SECONDS_PER_DAY) {
        Some(r) => r,
        None => 0,
    };
    proof {
        assert(0 <= in_day < 86400);
        assert(total == day_offset * 86400 + in_day) by (nonlinear_arith)
            requires
                day_offset == (total as int) / 86400,
                in_day == (total as int) % 86400,
        {
        }
    }
    let hour = in_day / SECONDS_PER_HOUR;
    let minute = (in_day % SECONDS_PER_HOUR) / SECONDS_PER_MINUTE;
    let second = in_day % SECONDS_PER_MINUTE;
    proof {
        lemma_time_of_day_parts(in_day as int);
    }
    DaySplit { day_offset, hour, minute, second }
}

/// The hour, minute and second of the day at which `total` seconds after a
/// midnight fall, whatever the number of whole days in `total`.
pub fn time_of_day(total: i64) -> (hms: (i64, i64, i64))
    ensures
        hms.0 == split_spec(total as int).1,
        hms.1 == split_spec(total as int).2,
        hms.2 == split_spec(total as int).3,
        0 <= hms.0 < 24,
        0 <= hms.1 < 60,
        0 <= hms.2 < 60,
{
    let split = split_total_seconds(total);
    (split.hour, split.minute, split.second)
}

/// The hours, minutes and seconds of a second of the day add up to it.
proof fn lemma_time_of_day_parts(in_day: int)
    requires
        0 <= in_day < 86400,
    ensures
        0 <= in_day / 3600 < 24,
        0 <= (in_day % 3600) / 60 < 60,
        0 <= in_day % 60 < 60,
        in_day % 60 == (in_day % 3600) % 60,
        in_day == hms_seconds(in_day / 3600, (in_day % 3600) / 60, in_day % 60),
{
    let h = in_day / 3600;
    let r = in_day % 3600;
    let m = r / 60;
    let s = r % 60;
    assert(in_day == h * 3600 + r && 0 <= r < 3600) by (nonlinear_arith)
        requires
            h == in_day / 3600,
            r == in_day % 3600,
    {
    }
    assert(r == m * 60 + s && 0 <= s < 60) by (nonlinear_arith)
        requires
            m == r / 60,
            s == r % 60,
    {
    }
    assert(0 <= h < 24) by (nonlinear_arith)
        requires
            in_day == h * 3600 + r,
            0 <= r < 3600,
            0 <= in_day < 86400,
    {
    }
    assert(0 <= m < 60) by (nonlinear_arith)
        requires
            r == m * 60 + s,
            0 <= s < 60,
            0 <= r < 3600,
    {
    }
    assert(in_day % 60 == s) by (nonlinear_arith)
        requires
            in_day == h * 3600 + m * 60 + s,
            0 <= s < 60,
            0 <= h,
            0 <= m,
    {
    }
}

/// A time of day given in range comes back unchanged, with no whole day,
/// when its seconds are split again.
pub proof fn law_split_inverts_hms(hour: int, minute: int, second: int)
    requires
        0 <= hour < 24,
        0 <= minute < 60,
        0 <= second < 60,
    ensures
        split_spec(hms_seconds(hour, minute, second)) == (0int, hour, minute, second),
{
    let t = hms_seconds(hour, minute, second);
    assert(0 <= t < 86400);
    assert(t / 86400 == 0 && t % 86400 == t) by (nonlinear_arith)
        requires
            0 <= t < 86400,
    {
    }
    assert(t / 3600 == hour && t % 3600 == minute * 60 + second) by (nonlinear_arith)
        requires
            t == hour * 3600 + minute * 60 + second,
            0 <= minute * 60 + second < 3600,
    {
    }
    assert((minute * 60 + second) / 60 == minute && (minute * 60 + second) % 60 == second)
        by (nonlinear_arith)
        requires
            0 <= second < 60,
    {
    }
    assert(t % 60 == second) by (nonlinear_arith)
        requires
            t == hour * 3600 + minute * 60 + second,
            0 <= second < 60,
            0 <= hour,
            0 <= minute,
    {
    }
}

/// Adding whole days to a count of seconds adds them to the day offset and
/// leaves the time of day as it was.
pub proof fn law_split_shifts_by_days(total: int, days: int)
    ensures
        split_spec(total + days * 86400) == (
            split_spec(total).0 + days,
            split_spec(total).1,
            split_spec(total).2,
            split_spec(total).3,
        ),
{
    let q = total / 86400;
    let r = total % 86400;
    assert(total + days * 86400 == (q + days) * 86400 + r && 0 <= r < 86400) by (nonlinear_arith)
        requires
            q == total / 86400,
            r == total % 86400,
    {
    }
    assert((total + days * 86400) / 86400 == q + days && (total + days * 86400) % 86400 == r)
        by (nonlinear_arith)
        requires
            total + days * 86400 == (q + days) * 86400 + r,
            0 <= r < 86400,
    {
    }
}

} // verus!
