use dfuji::calendar::{
    civil_from_local_seconds, jst_unix_time, normalize_sunset_naive_datetime, CivilDate,
    CivilDateTime,
};

const NOV_18_2025: i64 = 20410 * 86400;

#[test]
fn point_invalid_date_returns_none() {
    // Month 13 does not exist: no sunset time, hence no alignment.
    assert!(normalize_sunset_naive_datetime(2025, 13, 1, (16, 30, 0)).is_none());
}

#[test]
fn sunset_local_time_counts_days_since_1970() {
    let local = normalize_sunset_naive_datetime(2025, 11, 18, (16, 18, 36));
    assert_eq!(local, Some(NOV_18_2025 + 16 * 3600 + 18 * 60 + 36));
}

#[test]
fn sunset_on_invalid_days() {
    assert!(normalize_sunset_naive_datetime(2025, 2, 29, (17, 0, 0)).is_none());
    assert!(normalize_sunset_naive_datetime(2025, 4, 31, (17, 0, 0)).is_none());
    assert!(normalize_sunset_naive_datetime(2025, 0, 1, (17, 0, 0)).is_none());
    assert!(normalize_sunset_naive_datetime(2025, 1, 0, (17, 0, 0)).is_none());
    assert_eq!(
        normalize_sunset_naive_datetime(2024, 2, 29, (0, 0, 0)),
        Some(19782 * 86400)
    );
    assert!(normalize_sunset_naive_datetime(1900, 2, 29, (0, 0, 0)).is_none());
    assert!(normalize_sunset_naive_datetime(2000, 2, 29, (0, 0, 0)).is_some());
}

#[test]
fn sunset_clock_beyond_the_day_moves_the_date() {
    // 24:00:05 on 2024-02-29 is 00:00:05 on 2024-03-01.
    assert_eq!(
        normalize_sunset_naive_datetime(2024, 2, 29, (24, 0, 5)),
        Some(19783 * 86400 + 5)
    );
    // -00:00:01 on 1970-01-01 is 23:59:59 on 1969-12-31.
    assert_eq!(normalize_sunset_naive_datetime(1970, 1, 1, (0, 0, -1)), Some(-1));
}

#[test]
fn jst_unix_time_of_readme_example() {
    // 2025-11-18 16:18:36 +09:00 is UNIX time 1763450316.
    let local = normalize_sunset_naive_datetime(2025, 11, 18, (16, 18, 36)).unwrap();
    assert_eq!(jst_unix_time(local), Some(1763450316));
}

#[test]
fn civil_from_local_seconds_reads_the_calendar() {
    let dt = civil_from_local_seconds(NOV_18_2025 + 16 * 3600 + 18 * 60 + 36).unwrap();
    assert_eq!(
        dt,
        CivilDateTime {
            date: CivilDate { year: 2025, month: 11, day: 18 },
            hour: 16,
            minute: 18,
            second: 36,
        }
    );
    let before_epoch = civil_from_local_seconds(-1).unwrap();
    assert_eq!(
        before_epoch,
        CivilDateTime {
            date: CivilDate { year: 1969, month: 12, day: 31 },
            hour: 23,
            minute: 59,
            second: 59,
        }
    );
}

#[test]
fn civil_from_local_seconds_outside_the_calendar() {
    assert!(civil_from_local_seconds(95026236 * 86400 + 86399).is_some());
    assert!(civil_from_local_seconds(95026237 * 86400).is_none());
    assert!(civil_from_local_seconds(-96465292 * 86400).is_some());
    assert!(civil_from_local_seconds(-96465292 * 86400 - 1).is_none());
    assert!(civil_from_local_seconds(i64::MAX).is_none());
}

#[test]
fn local_seconds_round_trip() {
    for (y, m, d, h, mi, s) in [
        (2025i16, 11u8, 18u8, 16i64, 18i64, 36i64),
        (2024, 2, 29, 23, 59, 59),
        (1600, 3, 1, 0, 0, 0),
        (-4713, 11, 24, 12, 0, 0),
    ] {
        let local = normalize_sunset_naive_datetime(y, m, d, (h, mi, s)).unwrap();
        let dt = civil_from_local_seconds(local).unwrap();
        assert_eq!(dt.date, CivilDate { year: y as i32, month: m as u32, day: d as u32 });
        assert_eq!((dt.hour as i64, dt.minute as i64, dt.second as i64), (h, mi, s));
    }
}
