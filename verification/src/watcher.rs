//! Watching the clipboard: what is captured, and how often to try again.

use crate::rows::ClipEvent;
use vstd::prelude::*;
use vstd::string::*;

verus! {

/// Whether a change of the clipboard is captured: not while the watcher is paused, and not where
/// the change is the program's own, known by its sequence number.
pub fn should_capture(paused: bool, ignored_seq: u32, seq: u32) -> (res: bool)
    ensures
        res == (!paused && ignored_seq != seq),
{
    !paused && ignored_seq != seq
}

/// How often opening the clipboard may fail before the watcher gives up.
pub const OPEN_ATTEMPTS: u32 = 8;

/// `n` doubled over and over from 1.
pub open spec fn doubled(n: nat) -> nat
    decreases n,
{
    if n == 0 {
        1
    } else {
        2 * doubled((n - 1) as nat)
    }
}

/// How long to wait before the clipboard is opened again, in milliseconds, after it failed
/// `failures` times in a row: ten milliseconds, doubled with each failure up to three times.
pub open spec fn open_wait(failures: nat) -> Option<nat> {
    if failures >= OPEN_ATTEMPTS {
        None
    } else {
        Some(
            10 * doubled(
                if failures < 3 {
                    failures
                } else {
                    3
                },
            ),
        )
    }
}

/// How long to wait before the clipboard is opened again, in milliseconds, after it failed
/// `failures` times in a row; `None` where the watcher gives up.
pub fn open_retry(failures: u32) -> (res: Option<u64>)
    ensures
        match res {
            Some(ms) => open_wait(failures as nat) == Some(ms as nat),
            None => open_wait(failures as nat) is None,
        },
{
    proof {
        reveal_with_fuel(doubled, 4);
    }
    if failures >= OPEN_ATTEMPTS {
        None
    } else if failures == 0 {
        Some(10)
    } else if failures == 1 {
        Some(20)
    } else if failures == 2 {
        Some(40)
    } else {
        Some(80)
    }
}

/// Waiting never gets shorter, and ends after a bounded number of failures.
pub proof fn law_backoff(failures: nat)
    ensures
        open_wait(failures) is None <==> failures >= OPEN_ATTEMPTS,
        open_wait(failures) is Some && open_wait(failures + 1) is Some ==> open_wait(failures)->0
            <= open_wait(failures + 1)->0 <= 80,
{
    reveal_with_fuel(doubled, 4);
}

/// How often registering the listener may fail.
pub const LISTEN_ATTEMPTS: u32 = 5;

/// How long to wait after registering the listener failed for the `failures`th time, in
/// milliseconds, and whether to try again.
pub fn listen_retry(failures: u32) -> (res: (u64, bool))
    ensures
        res.0 == 20 * failures,
        res.1 == (failures < LISTEN_ATTEMPTS),
{
    (20 * (failures as u64), failures < LISTEN_ATTEMPTS)
}

/// The names of the formats by which a program asks that the clipboard be left alone, as password
/// managers do.
pub fn exclude_formats() -> (res: Vec<&'static str>)
    ensures
        res@.len() == 2,
        res@[0]@ == "Can Include in Clipboard History"@,
        res@[1]@ == "Exclude Clipboard Content from Monitor Processing"@,
{
    vec!["Can Include in Clipboard History", "Exclude Clipboard Content from Monitor Processing"]
}

/// What the clipboard offers.
#[derive(Debug, Clone, Copy, PartialEq, Eq, Structural)]
pub struct Available {
    /// One of the formats that ask to be left alone.
    pub excluded: bool,
    pub text: bool,
    pub dib: bool,
    pub files: bool,
}

/// Whether the bitmap is read: it is there, and there is no text.
pub fn reads_dib(available: Available, has_text: bool) -> (res: bool)
    ensures
        res == (!has_text && available.dib),
{
    !has_text && available.dib
}

/// Whether the list of files is read: it is there, and there is no text.
pub fn reads_files(available: Available, has_text: bool) -> (res: bool)
    ensures
        res == (!has_text && available.files),
{
    !has_text && available.files
}

/// What reading the clipboard gave, format by format.
#[derive(Debug)]
pub struct Readings {
    pub text: Option<String>,
    pub html: Option<Vec<u8>>,
    pub dib: Option<Vec<u8>>,
    pub files: Option<Vec<String>>,
}

/// The event that a capture makes of what it read. A clipboard that asks to be left alone makes
/// none. A text comes with the document beside it, and without a bitmap or files.
pub open spec fn captured(seq: u32, ts: i64, available: Available, r: Readings) -> Option<
    crate::rows::EventView,
> {
    if available.excluded {
        None
    } else {
        let text = if available.text {
            crate::rows::opt_view(r.text)
        } else {
            None
        };
        Some(
            crate::rows::EventView {
                seq,
                ts,
                text,
                html: if available.text {
                    crate::content::opt_bytes(r.html)
                } else {
                    None
                },
                dib: if text is None && available.dib {
                    crate::content::opt_bytes(r.dib)
                } else {
                    None
                },
                files: if text is None && available.files {
                    crate::text::opt_views(r.files)
                } else {
                    None
                },
            },
        )
    }
}

/// The event that a capture makes of what it read.
pub fn capture_event(seq: u32, ts: i64, available: Available, readings: Readings) -> (res: Option<
    ClipEvent,
>)
    ensures
        match res {
            Some(ev) => captured(seq, ts, available, readings) == Some(ev@),
            None => captured(seq, ts, available, readings) is None,
        },
{
    if available.excluded {
        return None;
    }
    let text = if available.text {
        readings.text
    } else {
        None
    };
    let html = if available.text {
        readings.html
    } else {
        None
    };
    let has_text = text.is_some();
    let dib = if reads_dib(available, has_text) {
        readings.dib
    } else {
        None
    };
    let files = if reads_files(available, has_text) {
        readings.files
    } else {
        None
    };
    Some(ClipEvent { seq, ts, text, html, dib, files })
}

} // verus!
