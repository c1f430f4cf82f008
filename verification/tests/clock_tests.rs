use dfuji::clock::{split_total_seconds, time_of_day, total_seconds, DaySplit};

#[test]
fn total_seconds_adds_hours_minutes_seconds() {
    assert_eq!(total_seconds(16, 18, 36), 58716);
    assert_eq!(total_seconds(0, 0, 0), 0);
    assert_eq!(total_seconds(-1, 30, 0), -1800);
}

#[test]
fn split_within_one_day() {
    let split = split_total_seconds(58716);
    assert_eq!(
        split,
        DaySplit { day_offset: 0, hour: 16, minute: 18, second: 36 }
    );
}

#[test]
fn split_rolls_over_to_next_day() {
    // 25:01:02 is 01:01:02 of the next day.
    let split = split_total_seconds(total_seconds(25, 1, 2));
    assert_eq!(
        split,
        DaySplit { day_offset: 1, hour: 1, minute: 1, second: 2 }
    );
}

#[test]
fn split_rolls_back_to_previous_day() {
    // One second before midnight is 23:59:59 of the previous day.
    let split = split_total_seconds(-1);
    assert_eq!(
        split,
        DaySplit { day_offset: -1, hour: 23, minute: 59, second: 59 }
    );
    let split = split_total_seconds(-86400 * 3 - 3600);
    assert_eq!(
        split,
        DaySplit { day_offset: -4, hour: 23, minute: 0, second: 0 }
    );
}

#[test]
fn time_of_day_ignores_whole_days() {
    assert_eq!(time_of_day(86400 * 2 + 61), (0, 1, 1));
    assert_eq!(time_of_day(-61), (23, 58, 59));
    assert_eq!(time_of_day(86399), (23, 59, 59));
}

#[test]
fn split_recomposes_total() {
    for total in [-200_000i64, -86_401, -1, 0, 1, 43_200, 86_399, 86_400, 1_000_000] {
        let s = split_total_seconds(total);
        assert_eq!(
            s.day_offset * 86400 + total_seconds(s.hour, s.minute, s.second),
            total
        );
    }
}
