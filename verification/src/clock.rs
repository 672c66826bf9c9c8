//! The current time and the local day.

use chrono::TimeZone;
use vstd::prelude::*;

verus! {

/// The milliseconds of a day.
pub const DAY_MS: i64 = 86_400_000;

/// `SystemTime::elapsed` of the Unix epoch, in milliseconds; `None` while the clock stands before
/// the epoch. What comes out is up to the clock.
#[verifier::external_body]
fn millis_since_epoch() -> (res: Option<u128>) {
    std::time::UNIX_EPOCH.elapsed().ok().map(|d| d.as_millis())
}

/// Whether `reading` is one that the clock gave.
pub closed spec fn is_reading(reading: Option<u128>) -> bool {
    call_ensures(millis_since_epoch, (), reading)
}

/// The timestamp for a reading of the clock: 0 where the clock stands before the epoch.
pub open spec fn timestamp(since_epoch: Option<u128>) -> i64 {
    match since_epoch {
        Some(ms) => ms as i64,
        None => 0,
    }
}

/// The timestamp for a reading of the clock: 0 where the clock stands before the epoch.
pub fn timestamp_of(since_epoch: Option<u128>) -> (res: i64)
    ensures
        res == timestamp(since_epoch),
{
    match since_epoch {
        Some(ms) => ms as i64,
        None => 0,
    }
}

/// The current time in milliseconds since the Unix epoch.
pub fn now_ts_ms() -> (res: i64)
    ensures
        exists|reading: Option<u128>| is_reading(reading) && res == #[trigger] timestamp(reading),
{
    let reading = millis_since_epoch();
    assert(is_reading(reading));
    timestamp_of(reading)
}

/// Whether `ts` is a time that the clock gave as the current one.
pub open spec fn is_now(ts: i64) -> bool {
    call_ensures(now_ts_ms, (), ts)
}

/// The timestamp for a reading of the clock as an unsigned number.
pub open spec fn unsigned_timestamp(since_epoch: Option<u128>) -> u64 {
    match since_epoch {
        Some(ms) => ms as u64,
        None => 0,
    }
}

/// The timestamp for a reading of the clock as an unsigned number.
pub fn unsigned_timestamp_of(since_epoch: Option<u128>) -> (res: u64)
    ensures
        res == unsigned_timestamp(since_epoch),
{
    match since_epoch {
        Some(ms) => ms as u64,
        None => 0,
    }
}

/// The current time in milliseconds since the Unix epoch, as an unsigned number.
pub fn now_ms() -> (res: u64)
    ensures
        exists|reading: Option<u128>|
            is_reading(reading) && res == #[trigger] unsigned_timestamp(reading),
{
    let reading = millis_since_epoch();
    assert(is_reading(reading));
    unsigned_timestamp_of(reading)
}

/// The moments that `chrono` can place on a local day, in milliseconds on either side of the Unix
/// epoch.
pub const CLOCK_RANGE: i64 = 8_000_000_000_000_000;

/// A time of day, in milliseconds.
pub open spec fn time_of_day(hour: u32, minute: u32, second: u32) -> int {
    (hour * 3600 + minute * 60 + second) * 1000
}

/// Whether `ms` is the moment `time` on the day that is `days` days after the day of `now`, where
/// the local clock is `ahead` of UTC at `now` and `ahead_then` at `ms`. All are in milliseconds.
pub open spec fn is_local_moment(
    now: i64,
    days: u64,
    time: int,
    ms: i64,
    ahead: int,
    ahead_then: int,
) -> bool {
    &&& -DAY_MS < ahead < DAY_MS
    &&& -DAY_MS < ahead_then < DAY_MS
    &&& ms + ahead_then == (now + ahead) / DAY_MS as int * DAY_MS + days * DAY_MS + time
}

/// `chrono::Local` gives the moment at which the local clock shows a given time, `days` days after
/// the local day of the moment `now`, in milliseconds since the Unix epoch. Where the clock shows
/// that time twice, it is one of the two moments, and `None` comes out where the clock skips that
/// time. How far the local clock is from UTC is up to the time zone of the machine, but it is less
/// than a day.
#[verifier::external_body]
fn local_time(now: i64, days: u64, hour: u32, minute: u32, second: u32) -> (res: Option<i64>)
    requires
        -CLOCK_RANGE <= now <= CLOCK_RANGE,
    ensures
        res matches Some(ms) ==> exists|ahead: int, ahead_then: int|
            is_local_moment(
                now,
                days,
                time_of_day(hour, minute, second),
                ms,
                ahead,
                ahead_then,
            ),
{
    let today = chrono::Local.timestamp_millis_opt(now).earliest()?.date_naive();
    let day = today.checked_add_days(chrono::Days::new(days))?;
    let time = day.and_hms_opt(hour, minute, second)?;
    chrono::Local.from_local_datetime(&time).earliest().map(|t| t.timestamp_millis())
}

/// Whether `midnight` is what the local clock gave for midnight, `days` days after the local day of
/// the moment `now`.
pub closed spec fn is_given_midnight(now: i64, days: u64, midnight: Option<i64>) -> bool {
    call_ensures(local_time, (now, days, 0u32, 0u32, 0u32), midnight)
}

/// Whether `midnight`, where there is one, is a moment at which the local clock shows midnight,
/// `days` days after the local day of the moment `now`.
pub open spec fn is_midnight(now: i64, days: u64, midnight: Option<i64>) -> bool {
    midnight matches Some(ms) ==> exists|ahead: int, ahead_then: int|
        is_local_moment(now, days, 0, ms, ahead, ahead_then)
}

/// The day between two midnights. Without a midnight today it starts with the epoch, and without
/// one tomorrow it ends a day's length after its start.
pub open spec fn day_between(today: Option<i64>, tomorrow: Option<i64>) -> (int, int) {
    let start = match today {
        Some(ms) => ms as int,
        None => 0,
    };
    let end = match tomorrow {
        Some(ms) => ms as int,
        None => start + DAY_MS,
    };
    (start, end)
}

/// The day between two midnights, from its first moment to that of the next day.
pub fn day_bounds(today: Option<i64>, tomorrow: Option<i64>) -> (res: (i64, i64))
    requires
        tomorrow is None ==> day_between(today, tomorrow).1 <= i64::MAX,
    ensures
        (res.0 as int, res.1 as int) == day_between(today, tomorrow),
{
    let start = match today {
        Some(ms) => ms,
        None => 0,
    };
    let end = match tomorrow {
        Some(ms) => ms,
        None => start + DAY_MS,
    };
    (start, end)
}

/// Whether `day` is the local day of the moment `now`: it lies between the midnight of that day
/// and the midnight of the next, as the local clock gave them. Moments out of range have no
/// midnights.
pub open spec fn is_day_of(now: i64, day: (i64, i64)) -> bool {
    exists|today: Option<i64>, tomorrow: Option<i64>|
        #![trigger day_between(today, tomorrow)]
        {
            &&& (day.0 as int, day.1 as int) == day_between(today, tomorrow)
            &&& is_midnight(now, 0, today)
            &&& is_midnight(now, 1, tomorrow)
            &&& if -CLOCK_RANGE <= now <= CLOCK_RANGE {
                is_given_midnight(now, 0, today) && is_given_midnight(now, 1, tomorrow)
            } else {
                today is None && tomorrow is None
            }
        }
}

/// The local day of the moment `now`, from its midnight to the midnight of the next day.
pub fn local_day_of(now: i64) -> (res: (i64, i64))
    ensures
        is_day_of(now, res),
{
    if now < -CLOCK_RANGE || now > CLOCK_RANGE {
        let res = day_bounds(None, None);
        assert((res.0 as int, res.1 as int) == day_between(None, None));
        return res;
    }
    let today = local_time(now, 0, 0, 0, 0);
    let tomorrow = local_time(now, 1, 0, 0, 0);
    assert(is_midnight(now, 0, today) && is_midnight(now, 1, tomorrow));
    assert(is_given_midnight(now, 0, today) && is_given_midnight(now, 1, tomorrow));
    let res = day_bounds(today, tomorrow);
    assert((res.0 as int, res.1 as int) == day_between(today, tomorrow));
    res
}

/// Whether `day` is the local day of a moment that the clock gave as the current one.
pub open spec fn is_local_day(day: (i64, i64)) -> bool {
    exists|now: i64| is_now(now) && #[trigger] is_day_of(now, day)
}

/// The current local day, from its midnight to the midnight of the next day.
pub fn local_day_bounds() -> (res: (i64, i64))
    ensures
        is_local_day(res),
{
    local_day_of(now_ts_ms())
}

/// A local day on which the clock does not change, between two midnights, is a day long; where
/// the clock changes, the day is longer or shorter by the change.
pub proof fn law_day_length(now: i64, day: (i64, i64), ahead: int, first: int, second: int)
    requires
        is_local_moment(now, 0, 0, day.0, ahead, first),
        is_local_moment(now, 1, 0, day.1, ahead, second),
    ensures
        day.1 - day.0 == DAY_MS + first - second,
{
}

} // verus!
