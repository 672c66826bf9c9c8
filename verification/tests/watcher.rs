use clipwin::watcher::{
    capture_event, exclude_formats, listen_retry, open_retry, reads_dib, reads_files,
    should_capture, Available, Readings,
};

fn all() -> Readings {
    Readings {
        text: Some("t".to_string()),
        html: Some(vec![1]),
        dib: Some(vec![2]),
        files: Some(vec!["f".to_string()]),
    }
}

const EVERYTHING: Available = Available { excluded: false, text: true, dib: true, files: true };

#[test]
fn paused_or_own_changes_are_skipped() {
    assert!(should_capture(false, 3, 4));
    assert!(!should_capture(true, 3, 4));
    assert!(!should_capture(false, 4, 4));
}

#[test]
fn waiting_doubles_and_ends() {
    let waits: Vec<Option<u64>> = (1..=8).map(open_retry).collect();
    assert_eq!(
        waits,
        vec![Some(20), Some(40), Some(80), Some(80), Some(80), Some(80), Some(80), None]
    );
    assert_eq!(open_retry(u32::MAX), None);
}

#[test]
fn the_listener_is_tried_five_times() {
    let tries: Vec<(u64, bool)> = (1..=5).map(listen_retry).collect();
    assert_eq!(tries, vec![(20, true), (40, true), (60, true), (80, true), (100, false)]);
}

#[test]
fn a_clipboard_that_asks_to_be_left_alone_makes_no_event() {
    let a = Available { excluded: true, ..EVERYTHING };
    assert!(capture_event(1, 2, a, all()).is_none());
    assert_eq!(
        exclude_formats(),
        vec![
            "Can Include in Clipboard History",
            "Exclude Clipboard Content from Monitor Processing"
        ]
    );
}

#[test]
fn text_comes_alone_with_its_document() {
    let ev = capture_event(1, 2, EVERYTHING, all()).unwrap();
    assert_eq!((ev.seq, ev.ts), (1, 2));
    assert_eq!(ev.text.as_deref(), Some("t"));
    assert_eq!(ev.html, Some(vec![1]));
    assert_eq!(ev.dib, None);
    assert_eq!(ev.files, None);
    assert!(!reads_dib(EVERYTHING, true));
    assert!(!reads_files(EVERYTHING, true));
}

#[test]
fn without_text_both_bitmap_and_files_are_read() {
    let a = Available { text: false, ..EVERYTHING };
    let ev = capture_event(1, 2, a, all()).unwrap();
    assert_eq!(ev.text, None);
    assert_eq!(ev.html, None);
    assert_eq!(ev.dib, Some(vec![2]));
    assert_eq!(ev.files, Some(vec!["f".to_string()]));
    assert!(reads_dib(a, false));
    assert!(reads_files(a, false));
}

#[test]
fn text_that_cannot_be_read_does_not_count() {
    let ev = capture_event(1, 2, EVERYTHING, Readings { text: None, ..all() }).unwrap();
    assert_eq!(ev.html, Some(vec![1]));
    assert_eq!(ev.dib, Some(vec![2]));
    let none = Available { excluded: false, text: false, dib: false, files: false };
    let ev = capture_event(1, 2, none, all()).unwrap();
    assert!(ev.text.is_none() && ev.html.is_none() && ev.dib.is_none() && ev.files.is_none());
}
