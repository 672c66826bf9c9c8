use chrono::{Local, TimeZone};
use clipwin::clock::{
    day_bounds, local_day_bounds, local_day_of, now_ms, now_ts_ms, timestamp_of,
    unsigned_timestamp_of, DAY_MS,
};

#[test]
fn readings_become_timestamps() {
    assert_eq!(timestamp_of(Some(1_700_000_000_123)), 1_700_000_000_123);
    assert_eq!(timestamp_of(None), 0);
    assert_eq!(unsigned_timestamp_of(Some(1_700_000_000_123)), 1_700_000_000_123);
    assert_eq!(unsigned_timestamp_of(None), 0);
}

#[test]
fn the_clock_is_read() {
    let before = std::time::SystemTime::now()
        .duration_since(std::time::UNIX_EPOCH)
        .unwrap()
        .as_millis() as i64;
    let now = now_ts_ms();
    assert!(now >= before && now < before + 20_000);
    assert!(now_ms() >= now as u64);
}

#[test]
fn a_day_lies_between_two_midnights() {
    assert_eq!(day_bounds(Some(1000), Some(82_801_000)), (1000, 82_801_000));
    assert_eq!(day_bounds(Some(1000), Some(90_001_000)), (1000, 90_001_000));
    assert_eq!(day_bounds(Some(1000), None), (1000, 1000 + DAY_MS));
    assert_eq!(day_bounds(None, Some(5)), (0, 5));
    assert_eq!(day_bounds(None, None), (0, 86_400_000));
}

#[test]
fn the_current_day_holds_the_current_time() {
    let (start, end) = local_day_bounds();
    let now = now_ts_ms();
    assert!(start <= now && now < end + 20_000);
}

#[test]
fn a_moment_lies_on_its_local_day() {
    let midnight = |day: chrono::NaiveDate| {
        let time = day.and_hms_opt(0, 0, 0).unwrap();
        Local.from_local_datetime(&time).earliest().map(|t| t.timestamp_millis())
    };
    for now in [0i64, 1_700_000_000_000, 951_782_400_123, -1_000_000_000_000] {
        let day = Local.timestamp_millis_opt(now).unwrap().date_naive();
        let start = midnight(day).unwrap_or(0);
        let end = midnight(day.succ_opt().unwrap()).unwrap_or(start + DAY_MS);
        assert_eq!(local_day_of(now), (start, end));
    }
    assert_eq!(local_day_of(i64::MAX), (0, DAY_MS));
    assert_eq!(local_day_of(i64::MIN), (0, DAY_MS));
}
