use clipwin::cf_html::{
    cf_html_payload, complete_document, frame_cf_html, html_range, parse_cf_html, read_field,
};
use clipwin::text::chars_of;

fn payload(doc: &str, start: usize, end: usize) -> Vec<u8> {
    let mut out = format!("Version:0.9\r\nStartHtml:{start:010}\r\nEndHtml:{end:010}\r\n");
    out.push_str(doc);
    out.into_bytes()
}

const HEAD: usize = 55;

#[test]
fn the_named_range_is_the_document() {
    let doc = "<HTML><body>会议</body></html>";
    let raw = payload(doc, HEAD, HEAD + doc.len());
    assert_eq!(parse_cf_html(&raw).as_deref(), Some(doc));
    let raw = payload("xx<html>y</html>zz", HEAD + 2, HEAD + 16);
    assert_eq!(parse_cf_html(&raw).as_deref(), Some("<html>y</html>"));
}

#[test]
fn a_fragment_gets_a_document_around_it() {
    let raw = payload("<b>x</b>", HEAD, HEAD + 8);
    assert_eq!(parse_cf_html(&raw).as_deref(), Some("<html><body><b>x</b></body></html>"));
    assert_eq!(complete_document("t".to_string(), "t"), "<html><body>t</body></html>");
    assert_eq!(complete_document("<HTML>".to_string(), "<html>"), "<HTML>");
}

#[test]
fn an_unusable_range_gives_the_whole_payload() {
    let raw = payload("<b>x</b>", 9, 9);
    assert_eq!(parse_cf_html(&raw), Some(String::from_utf8(raw.clone()).unwrap()));
    let raw = payload("<b>x</b>", 0, 100_000);
    assert_eq!(parse_cf_html(&raw), Some(String::from_utf8(raw.clone()).unwrap()));
    assert_eq!(parse_cf_html(&payload("text", 9, 9)), None);
}

#[test]
fn a_header_without_both_offsets_gives_nothing() {
    assert_eq!(parse_cf_html(b""), None);
    assert_eq!(parse_cf_html(b"<html>"), None);
    assert_eq!(parse_cf_html(b"StartHtml:1\r\n<html>"), None);
    assert_eq!(parse_cf_html(b"StartHtml:x\r\nEndHtml:2\r\n<html>"), None);
    assert_eq!(parse_cf_html(b"StartHTML:0\r\nEndHTML:5\r\n<html>"), None);
}

#[test]
fn the_header_is_sought_in_the_first_bytes_alone() {
    let mut raw = vec![b'<'; 512];
    raw.extend_from_slice(b"StartHtml:0\r\nEndHtml:3\r\n");
    assert_eq!(parse_cf_html(&raw), None);
    let mut raw = b"StartHtml:0\r\nEndHtml:3\r\n".to_vec();
    raw.extend_from_slice(&[b'<'; 600]);
    assert_eq!(parse_cf_html(&raw).as_deref(), Some("<html><body>Sta</body></html>"));
}

#[test]
fn invalid_bytes_are_replaced() {
    let mut raw = b"StartHtml:26\r\nEndHtml:29\r\n".to_vec();
    raw.extend_from_slice(&[0xff, b'<', 0xfe]);
    assert_eq!(
        parse_cf_html(&raw).as_deref(),
        Some("<html><body>\u{fffd}<\u{fffd}</body></html>")
    );
}

#[test]
fn fields_end_at_the_line() {
    let h = chars_of("StartHtml: 12 \r\nEndHtml:+34\nrest");
    assert_eq!(read_field(&h, "StartHtml:"), Some(12));
    assert_eq!(read_field(&h, "EndHtml:"), Some(34));
    assert_eq!(read_field(&h, "Other:"), None);
    assert_eq!(html_range("StartHtml:1\nEndHtml:2"), Some((1, 2)));
    assert_eq!(html_range("StartHtml:1"), None);
}

#[test]
fn a_payload_reads_back() {
    for html in ["<b>粗</b>", "plain", "", "  <p>x</p>\n"] {
        let raw = cf_html_payload(html);
        let want = format!(
            "<html><body>\r\n<!--StartFragment-->{}<!--EndFragment-->\r\n</body></html>",
            html.trim()
        );
        assert_eq!(parse_cf_html(&raw), Some(want));
    }
    let whole = "<HTML lang=zh><body>文档</body></HTML>";
    assert_eq!(parse_cf_html(&cf_html_payload(whole)).as_deref(), Some(whole));
}

#[test]
fn offsets_delimit_document_and_fragment() {
    let raw = cf_html_payload("<b>粗</b>");
    let text = String::from_utf8(raw.clone()).unwrap();
    assert!(text.starts_with(
        "Version:0.9\r\nStartHtml:0000000105\r\nEndHtml:0000000183\r\n\
         StartFragment:0000000139\r\nEndFragment:0000000149\r\n<html><body>\r\n"
    ));
    assert_eq!(&raw[139..149], "<b>粗</b>".as_bytes());
    assert_eq!(raw.len(), 183);
}

#[test]
fn a_whole_document_is_its_own_fragment() {
    assert_eq!(
        frame_cf_html("<html></html>", true),
        "Version:0.9\r\nStartHtml:0000000105\r\nEndHtml:0000000118\r\n\
         StartFragment:0000000105\r\nEndFragment:0000000118\r\n<html></html>"
    );
}
