//! Laws of watching the clipboard, and of the times that go with what is captured.

use crate::clock::{
    day_bounds, local_day_bounds, local_day_of, now_ms, now_ts_ms, timestamp_of,
    unsigned_timestamp_of,
};
use crate::rows::ClipEvent;
use crate::watcher::{
    capture_event, exclude_formats, listen_retry, open_retry, reads_dib, reads_files,
    should_capture, Available, Readings,
};
use vstd::prelude::*;

verus! {

/// A paused watcher captures nothing, and none captures a change of the program's own; every
/// other change is captured.
pub proof fn law_captured_changes(paused: bool, ignored: u32, seq: u32, res: bool)
    requires
        call_ensures(should_capture, (paused, ignored, seq), res),
    ensures
        paused ==> !res,
        seq == ignored ==> !res,
        !paused && seq != ignored ==> res,
{
}

/// The first wait for the clipboard is ten milliseconds. Each of the next three is twice as long
/// as the one before, and then they stay as long; after eight failures there is none.
pub proof fn law_waits(n: u32, m: u32, first: Option<u64>, next: Option<u64>)
    requires
        m == n + 1,
        call_ensures(open_retry, (n,), first),
        call_ensures(open_retry, (m,), next),
    ensures
        first is Some <==> n < 8,
        next is Some <==> m < 8,
        n == 0 ==> first == Some(10u64),
        m <= 3 ==> next->0 == 2 * first->0,
        3 < m < 8 ==> next == first,
{
    reveal_with_fuel(crate::watcher::doubled, 4);
}

/// The wait for the listener grows by twenty milliseconds with each failure, and the fifth is the
/// last.
pub proof fn law_listener_waits(n: u32, m: u32, first: (u64, bool), next: (u64, bool))
    requires
        m == n + 1,
        call_ensures(listen_retry, (n,), first),
        call_ensures(listen_retry, (m,), next),
    ensures
        n == 0 ==> first.0 == 0,
        next.0 == first.0 + 20,
        first.1 <==> n < 5,
        next.1 <==> m < 5,
{
}

/// The two formats by which a program asks to be left alone.
pub proof fn law_formats(res: Vec<&'static str>)
    requires
        call_ensures(exclude_formats, (), res),
    ensures
        res@.len() == 2,
        res@[0]@ == "Can Include in Clipboard History"@,
        res@[1]@ == "Exclude Clipboard Content from Monitor Processing"@,
{
}

/// Bitmaps and files are read where they are offered and there is no text.
pub proof fn law_read_formats(available: Available, has_text: bool, dib: bool, files: bool)
    requires
        call_ensures(reads_dib, (available, has_text), dib),
        call_ensures(reads_files, (available, has_text), files),
    ensures
        has_text ==> !dib && !files,
        !has_text ==> dib == available.dib && files == available.files,
{
}

/// What was read becomes the event, format by format: the text and the document beside it where a
/// text is offered, and a bitmap and files where they are offered and there is no text. A
/// clipboard that asks to be left alone makes no event.
pub proof fn law_event_of_readings(
    seq: u32,
    ts: i64,
    available: Available,
    r: Readings,
    res: Option<ClipEvent>,
)
    requires
        call_ensures(capture_event, (seq, ts, available, r), res),
    ensures
        res is None <==> available.excluded,
        res is Some ==> {
            let ev = res->0@;
            let has_text = available.text && r.text is Some;
            &&& ev.seq == seq
            &&& ev.ts == ts
            &&& available.text ==> ev.text == crate::rows::opt_view(r.text)
            &&& !available.text ==> ev.text is None && ev.html is None
            &&& available.text ==> ev.html == crate::content::opt_bytes(r.html)
            &&& has_text ==> ev.dib is None && ev.files is None
            &&& !has_text && available.dib ==> ev.dib == crate::content::opt_bytes(r.dib)
            &&& !has_text && available.files ==> ev.files == crate::text::opt_views(r.files)
            &&& !available.dib ==> ev.dib is None
            &&& !available.files ==> ev.files is None
        },
{
}

/// A reading of the clock is its own timestamp, in milliseconds, as far as it fits 64 bits; a clock
/// that stands before the epoch gives zero.
pub proof fn law_timestamps(reading: Option<u128>, ts: i64, unsigned: u64)
    requires
        call_ensures(timestamp_of, (reading,), ts),
        call_ensures(unsigned_timestamp_of, (reading,), unsigned),
    ensures
        reading is None ==> ts == 0 && unsigned == 0,
        reading is Some && reading->0 <= i64::MAX ==> ts == reading->0,
        reading is Some && reading->0 <= u64::MAX ==> unsigned == reading->0,
        reading is Some ==> unsigned == reading->0 % 0x1_0000_0000_0000_0000,
        reading is Some ==> ts as u64 == unsigned,
{
    if let Some(ms) = reading {
        assert((ms as u64) as u128 == ms % 0x1_0000_0000_0000_0000u128) by (bit_vector);
        assert((ms as i64) as u64 == ms as u64) by (bit_vector);
    }
}

/// The current time is a timestamp of some reading of the clock.
pub proof fn law_current_time(now: i64, unsigned: u64)
    requires
        call_ensures(now_ts_ms, (), now),
        call_ensures(now_ms, (), unsigned),
    ensures
        exists|reading: Option<u128>| #[trigger]
            crate::clock::is_reading(reading) && (reading is None ==> now == 0) && (reading is Some
                && reading->0 <= i64::MAX ==> now == reading->0),
        exists|reading: Option<u128>| #[trigger]
            crate::clock::is_reading(reading) && (reading is None ==> unsigned == 0) && (
            reading is Some && reading->0 <= u64::MAX ==> unsigned == reading->0),
{
    let a = choose|reading: Option<u128>|
        crate::clock::is_reading(reading) && now == #[trigger] crate::clock::timestamp(reading);
    let b = choose|reading: Option<u128>|
        crate::clock::is_reading(reading) && unsigned
            == #[trigger] crate::clock::unsigned_timestamp(reading);
    assert(crate::clock::is_reading(a));
    assert(crate::clock::is_reading(b));
}

/// A day runs from its midnight to the next. Without the first it starts with the epoch, and
/// without the second it is twenty-four hours long.
pub proof fn law_day(today: Option<i64>, tomorrow: Option<i64>, day: (i64, i64))
    requires
        call_ensures(day_bounds, (today, tomorrow), day),
    ensures
        today is Some ==> day.0 == today->0,
        today is None ==> day.0 == 0,
        tomorrow is Some ==> day.1 == tomorrow->0,
        tomorrow is None ==> day.1 == day.0 + 24 * 60 * 60 * 1000,
{
}

/// The local day of a moment starts and ends with the midnights that the local clock gave for its
/// own day and the next one. A moment too far off for the clock has the first day of the epoch.
pub proof fn law_local_day(now: i64, day: (i64, i64))
    requires
        call_ensures(local_day_of, (now,), day),
    ensures
        !(-8_000_000_000_000_000 <= now <= 8_000_000_000_000_000) ==> day.0 == 0 && day.1
            == 24 * 60 * 60 * 1000,
        exists|today: Option<i64>, tomorrow: Option<i64>|
            {
                &&& #[trigger] crate::clock::is_midnight(now, 0, today)
                &&& #[trigger] crate::clock::is_midnight(now, 1, tomorrow)
                &&& -8_000_000_000_000_000 <= now <= 8_000_000_000_000_000
                    ==> crate::clock::is_given_midnight(now, 0, today)
                    && crate::clock::is_given_midnight(now, 1, tomorrow)
                &&& day.0 == match today {
                    Some(ms) => ms,
                    None => 0,
                }
                &&& day.1 == match tomorrow {
                    Some(ms) => ms as int,
                    None => day.0 + 24 * 60 * 60 * 1000,
                }
            },
{
    let (today, tomorrow) = choose|today: Option<i64>, tomorrow: Option<i64>|
        #![trigger crate::clock::day_between(today, tomorrow)]
        {
            &&& (day.0 as int, day.1 as int) == crate::clock::day_between(today, tomorrow)
            &&& crate::clock::is_midnight(now, 0, today)
            &&& crate::clock::is_midnight(now, 1, tomorrow)
            &&& if -crate::clock::CLOCK_RANGE <= now <= crate::clock::CLOCK_RANGE {
                crate::clock::is_given_midnight(now, 0, today) && crate::clock::is_given_midnight(
                    now,
                    1,
                    tomorrow,
                )
            } else {
                today is None && tomorrow is None
            }
        };
    assert(crate::clock::is_midnight(now, 0, today));
    assert(crate::clock::is_midnight(now, 1, tomorrow));
}

/// Whether a clock that is `ahead` of UTC at `now` and `then` ahead of it at `ms` shows midnight at
/// `ms`, `days` days after the start of the day that it shows at `now`.
pub open spec fn shows_midnight(now: int, days: int, ms: int, ahead: int, then: int) -> bool {
    let start = ms + then - days * 86_400_000;
    &&& -86_400_000 < ahead < 86_400_000
    &&& -86_400_000 < then < 86_400_000
    &&& start % 86_400_000 == 0
    &&& start <= now + ahead < start + 86_400_000
}

/// A midnight that the local clock gives is a whole number of days after the epoch on that clock,
/// and starts the day of the moment, or the one that comes so many days after it.
pub proof fn law_midnight(now: i64, days: u64, ms: i64)
    requires
        crate::clock::is_midnight(now, days, Some(ms)),
    ensures
        exists|ahead: int, then: int|
            shows_midnight(now as int, days as int, ms as int, ahead, then),
{
    let (ahead, then) = choose|ahead: int, then: int|
        crate::clock::is_local_moment(now, days, 0, ms, ahead, then);
    assert(shows_midnight(now as int, days as int, ms as int, ahead, then));
}

/// The current local day is the local day of the current time.
pub proof fn law_current_day(day: (i64, i64))
    requires
        call_ensures(local_day_bounds, (), day),
    ensures
        exists|now: i64|
            crate::clock::is_now(now) && #[trigger] crate::clock::is_day_of(now, day),
{
}

} // verus!
