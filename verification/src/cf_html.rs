//! The clipboard's "HTML Format": a header of byte offsets, then a document.

use crate::decimal::{padded_u128, parse_usize};
use crate::text::{chars_of, copy_range, find_chars, matches_at, string_of, trim_chars, CharClass};
use crate::unicode::decode_lossy;
use vstd::prelude::*;
use vstd::slice::*;
use vstd::string::*;
use vstd::utf8::*;

verus! {

/// How many bytes of a payload are searched for the header.
pub const HEADER_WINDOW: usize = 512;

/// The part of `s` before the first line break.
pub open spec fn first_line(s: Seq<char>) -> Seq<char>
    decreases s.len(),
{
    if s.len() == 0 || s[0] == '\r' || s[0] == '\n' {
        seq![]
    } else {
        seq![s[0]] + first_line(s.drop_first())
    }
}

/// Whether the first occurrence of `needle` in `hay` is at `i`.
pub open spec fn first_occurs_at(hay: Seq<char>, needle: Seq<char>, i: int) -> bool {
    &&& crate::text::occurs_at(hay, needle, i)
    &&& forall|k: int| 0 <= k < i ==> !#[trigger] crate::text::occurs_at(hay, needle, k)
}

/// The number on the line of `header` that follows the first occurrence of `key`.
pub open spec fn header_field(header: Seq<char>, key: Seq<char>) -> Option<int> {
    if crate::text::occurs(header, key) {
        let i = choose|i: int| first_occurs_at(header, key, i);
        let line = first_line(header.skip(i + key.len()));
        crate::decimal::parsed_int(
            crate::text::trimmed(line, CharClass::White),
            0,
            usize::MAX as int,
        )
    } else {
        None
    }
}

/// The first occurrence of a text is one place alone.
pub proof fn lemma_first_occurrence(hay: Seq<char>, needle: Seq<char>, i: int)
    requires
        first_occurs_at(hay, needle, i),
    ensures
        crate::text::occurs(hay, needle),
        (choose|k: int| first_occurs_at(hay, needle, k)) == i,
{
    let j = choose|k: int| first_occurs_at(hay, needle, k);
    assert(first_occurs_at(hay, needle, j));
    if j < i {
        assert(!crate::text::occurs_at(hay, needle, j));
    }
    if i < j {
        assert(!crate::text::occurs_at(hay, needle, i));
    }
}

/// The first line ends at the first line break.
pub proof fn lemma_first_line(s: Seq<char>, n: int)
    requires
        0 <= n <= s.len(),
        forall|k: int| 0 <= k < n ==> s[k] != '\r' && s[k] != '\n',
        n < s.len() ==> s[n] == '\r' || s[n] == '\n',
    ensures
        first_line(s) == s.take(n),
    decreases n,
{
    if n > 0 {
        lemma_first_line(s.drop_first(), n - 1);
        assert(s.take(n) =~= seq![s[0]] + s.drop_first().take(n - 1));
    } else {
        assert(s.take(0) =~= seq![]);
    }
}

/// Reads the number that follows `key` in the header.
pub fn read_field(header: &Vec<char>, key: &str) -> (res: Option<usize>)
    ensures
        match res {
            Some(n) => header_field(header@, key@) == Some(n as int),
            None => header_field(header@, key@) is None,
        },
{
    let needle = chars_of(key);
    match find_chars(header, &needle) {
        None => None,
        Some(i) => {
            proof {
                assert(first_occurs_at(header@, key@, i as int));
                lemma_first_occurrence(header@, key@, i as int);
            }
            assert(i + needle@.len() <= header.len());
            let from = i + needle.len();
            let mut to = from;
            while to < header.len() && header[to] != '\r' && header[to] != '\n'
                invariant
                    from <= to <= header@.len(),
                    forall|k: int|
                        from <= k < to ==> header@[k] != '\r' && header@[k] != '\n',
                decreases header@.len() - to,
            {
                to += 1;
            }
            let line = copy_range(header, from, to);
            proof {
                let rest = header@.skip(from as int);
                lemma_first_line(rest, to - from);
                assert(rest.take(to - from) =~= line@);
            }
            parse_usize(&trim_chars(&line, CharClass::White))
        },
    }
}

/// The byte range of the document that a header names: both offsets have to be readable.
pub open spec fn html_range_of(header: Seq<char>) -> Option<(int, int)> {
    match (header_field(header, "StartHtml:"@), header_field(header, "EndHtml:"@)) {
        (Some(start), Some(end)) => Some((start, end)),
        _ => None,
    }
}

/// Reads the byte range of the document out of the header.
pub fn html_range(header: &str) -> (res: Option<(usize, usize)>)
    ensures
        match res {
            Some(r) => html_range_of(header@) == Some((r.0 as int, r.1 as int)),
            None => html_range_of(header@) is None,
        },
{
    let h = chars_of(header);
    match (read_field(&h, "StartHtml:"), read_field(&h, "EndHtml:")) {
        (Some(start), Some(end)) => Some((start, end)),
        _ => None,
    }
}

/// A document for `s`: `s` itself where its lower-case form `lower` has an `<html` tag, else `s`
/// inside one.
pub open spec fn completed(s: Seq<char>, lower: Seq<char>) -> Seq<char> {
    if crate::text::occurs(lower, "<html"@) {
        s
    } else {
        "<html><body>"@ + s + "</body></html>"@
    }
}

/// Puts `s` into an `<html>` document unless its lower-case form `lower` already has the tag.
pub fn complete_document(s: String, lower: &str) -> (res: String)
    ensures
        res@ == completed(s@, lower@),
{
    if crate::text::contains_str(lower, "<html") {
        s
    } else {
        let mut out = "<html><body>".to_owned();
        out.append(s.as_str());
        out.append("</body></html>");
        out
    }
}

/// The document in a payload. Where the header names no usable range, the whole payload is taken
/// if it holds a tag at all.
pub open spec fn cf_html_document(raw: Seq<u8>) -> Option<Seq<char>> {
    let window = if raw.len() < HEADER_WINDOW {
        raw.len() as int
    } else {
        HEADER_WINDOW as int
    };
    match html_range_of(crate::unicode::utf8_lossy(raw.take(window))) {
        None => None,
        Some((start, end)) => {
            if end <= start || end > raw.len() {
                let all = crate::unicode::utf8_lossy(raw);
                if crate::text::occurs(all, seq!['<']) {
                    Some(all)
                } else {
                    None
                }
            } else {
                let s = crate::unicode::utf8_lossy(raw.subrange(start, end));
                Some(completed(s, crate::unicode::lowercase(s)))
            }
        },
    }
}

/// Whether `raw` is the payload that carries `body`, with offsets that fit their ten digits.
pub open spec fn carries(raw: Seq<u8>, body: Seq<char>, whole: bool) -> bool {
    &&& raw == encode_utf8(cf_html_text(body, whole))
    &&& HEADER_BYTES + byte_len(framed(body, whole)) < 10_000_000_000
    &&& whole ==> body.len() > 0 && is_whole(crate::unicode::lowercase(body))
}

/// The bytes of two texts, one after the other, are the bytes of the one and those of the
/// other.
pub proof fn lemma_encode_concat(a: Seq<char>, b: Seq<char>)
    ensures
        encode_utf8(a + b) == encode_utf8(a) + encode_utf8(b),
    decreases a.len(),
{
    if a.len() == 0 {
        assert(a + b =~= b);
        assert(encode_utf8(a) + encode_utf8(b) =~= encode_utf8(b));
    } else {
        assert((a + b).drop_first() =~= a.drop_first() + b);
        lemma_encode_concat(a.drop_first(), b);
        assert(encode_utf8(a + b) =~= encode_utf8(a) + encode_utf8(b));
    }
}

proof fn lemma_trim_digits(s: Seq<char>)
    requires
        s.len() > 0,
        forall|i: int| 0 <= i < s.len() ==> crate::decimal::is_digit(#[trigger] s[i]),
    ensures
        crate::text::trimmed(s, CharClass::White) == s,
{
    assert(crate::decimal::is_digit(s[0]));
    assert(crate::decimal::is_digit(s[s.len() - 1]));
}

/// A field whose digits end at a line break has their value.
pub proof fn lemma_field(h: Seq<char>, key: Seq<char>, at: int, digits: Seq<char>, n: int)
    requires
        0 <= at,
        key.len() > 0,
        digits.len() > 0,
        at + key.len() + digits.len() < h.len(),
        h.subrange(at, at + key.len()) == key,
        forall|k: int| 0 <= k < at ==> !#[trigger] crate::text::occurs_at(h, key, k),
        h.subrange(at + key.len(), at + key.len() + digits.len()) == digits,
        h[at + key.len() + digits.len()] == '\r',
        forall|i: int| 0 <= i < digits.len() ==> crate::decimal::is_digit(#[trigger] digits[i]),
        crate::decimal::digits_value(digits) == Some(n),
        0 <= n <= usize::MAX,
    ensures
        header_field(h, key) == Some(n),
{
    assert(first_occurs_at(h, key, at));
    lemma_first_occurrence(h, key, at);
    let rest = h.skip(at + key.len());
    assert forall|k: int| 0 <= k < digits.len() implies rest[k] != '\r' && rest[k] != '\n' by {
        assert(h.subrange(at + key.len(), at + key.len() + digits.len())[k] == rest[k]);
        assert(crate::decimal::is_digit(digits[k]));
    }
    lemma_first_line(rest, digits.len() as int);
    assert(rest.take(digits.len() as int) =~= digits);
    lemma_trim_digits(digits);
    assert(crate::decimal::is_digit(digits[0]));
}

/// A text does not occur where another character than one of its own stands.
pub proof fn lemma_occurs_char(h: Seq<char>, key: Seq<char>, at: int, j: int)
    requires
        crate::text::occurs_at(h, key, at),
        0 <= j < key.len(),
    ensures
        h[at + j] == key[j],
{
    assert(h.subrange(at, at + key.len())[j] == h[at + j]);
}

/// The shape of a header whose offsets have ten digits each.
pub proof fn lemma_header(end: int, frag_start: int, frag_end: int)
    requires
        0 <= end < 10_000_000_000,
        0 <= frag_start < 10_000_000_000,
        0 <= frag_end < 10_000_000_000,
    ensures
        ({
            let h = header_text(end, frag_start, frag_end);
            &&& h.len() == HEADER_BYTES
            &&& is_ascii_chars(h)
            &&& h.subrange(13, 23) == "StartHtml:"@
            &&& h.subrange(23, 33) == offset_text(HEADER_BYTES as int)
            &&& h[33] == '\r'
            &&& h.subrange(35, 43) == "EndHtml:"@
            &&& h.subrange(43, 53) == offset_text(end)
            &&& h[53] == '\r'
            &&& h.subrange(55, 69) == "StartFragment:"@
            &&& h.subrange(69, 79) == offset_text(frag_start)
            &&& h[79] == '\r'
            &&& h.subrange(81, 93) == "EndFragment:"@
            &&& h.subrange(93, 103) == offset_text(frag_end)
            &&& h[103] == '\r'
            &&& h.take(13) == "Version:0.9\r\n"@
            &&& forall|k: int| 0 <= k < 13 ==> h[k] != 'S'
            &&& forall|k: int| 0 <= k < 35 ==> h[k] != 'E'
            &&& forall|k: int| 0 <= k < 55 && h[k] == 'S' ==> k == 13
            &&& forall|k: int| 0 <= k < 81 && h[k] == 'E' ==> k == 35
            &&& h[18] == 'H'
            &&& h[38] == 'H'
        }),
{
    reveal_strlit("Version:0.9\r\nStartHtml:");
    reveal_strlit("\r\nEndHtml:");
    reveal_strlit("\r\nStartFragment:");
    reveal_strlit("\r\nEndFragment:");
    reveal_strlit("\r\n");
    reveal_strlit("StartHtml:");
    reveal_strlit("EndHtml:");
    reveal_strlit("StartFragment:");
    reveal_strlit("EndFragment:");
    reveal_strlit("Version:0.9\r\n");
    assert(crate::decimal::pow10(10) == 10_000_000_000) by {
        reveal_with_fuel(crate::decimal::pow10, 11);
    }
    crate::decimal::lemma_decimal_len(HEADER_BYTES as nat, 10);
    crate::decimal::lemma_decimal_len(end as nat, 10);
    crate::decimal::lemma_decimal_len(frag_start as nat, 10);
    crate::decimal::lemma_decimal_len(frag_end as nat, 10);
    crate::decimal::lemma_padded_value(HEADER_BYTES as nat, 10);
    crate::decimal::lemma_padded_value(end as nat, 10);
    crate::decimal::lemma_padded_value(frag_start as nat, 10);
    crate::decimal::lemma_padded_value(frag_end as nat, 10);
    let h = header_text(end, frag_start, frag_end);
    let a = offset_text(HEADER_BYTES as int);
    let b = offset_text(end);
    let c = offset_text(frag_start);
    let d = offset_text(frag_end);
    assert(h.subrange(13, 23) =~= "StartHtml:"@);
    assert(h.subrange(23, 33) =~= a);
    assert(h.subrange(35, 43) =~= "EndHtml:"@);
    assert(h.subrange(43, 53) =~= b);
    assert(h.subrange(55, 69) =~= "StartFragment:"@);
    assert(h.subrange(69, 79) =~= c);
    assert(h.subrange(81, 93) =~= "EndFragment:"@);
    assert(h.subrange(93, 103) =~= d);
    assert(h.take(13) =~= "Version:0.9\r\n"@);
    assert forall|k: int| 23 <= k < 33 implies crate::decimal::is_digit(h[k]) by {
        assert(h[k] == a[k - 23]);
    }
    assert forall|k: int| 43 <= k < 53 implies crate::decimal::is_digit(h[k]) by {
        assert(h[k] == b[k - 43]);
    }
    assert forall|k: int| 69 <= k < 79 implies crate::decimal::is_digit(h[k]) by {
        assert(h[k] == c[k - 69]);
    }
    assert forall|k: int| 93 <= k < 103 implies crate::decimal::is_digit(h[k]) by {
        assert(h[k] == d[k - 93]);
    }
}

/// What a payload looks like to its reader, where the text of its first bytes starts with the
/// header.
proof fn lemma_carried(raw: Seq<u8>, body: Seq<char>, whole: bool)
    requires
        carries(raw, body, whole),
        raw.len() <= usize::MAX,
    ensures
        HEADER_BYTES < raw.len(),
        valid_utf8(raw.take(HEADER_BYTES as int)),
        raw.subrange(HEADER_BYTES as int, raw.len() as int) == encode_utf8(framed(body, whole)),
        forall|rest: Seq<char>|
            html_range_of(#[trigger] (decode_utf8(raw.take(HEADER_BYTES as int)) + rest)) == Some(
                (HEADER_BYTES as int, raw.len() as int),
            ),
{
    let frag = framed(body, whole);
    let start = HEADER_BYTES + body_offset(whole);
    let end = HEADER_BYTES + byte_len(frag);
    let header = header_text(end, start, start + byte_len(body));
    if !whole {
        let pre = "<html><body>\r\n<!--StartFragment-->"@;
        let post = "<!--EndFragment-->\r\n</body></html>"@;
        lemma_encode_concat(pre, body);
        lemma_encode_concat(pre + body, post);
        reveal_strlit("<html><body>\r\n<!--StartFragment-->");
    }
    assert(frag.len() > 0);
    assert(encode_scalar(frag[0] as u32).len() > 0);
    lemma_header(end, start, start + byte_len(body));
    lemma_encode_concat(header, frag);
    is_ascii_chars_encode_utf8(header);
    assert(raw.take(HEADER_BYTES as int) =~= encode_utf8(header));
    assert(raw.subrange(HEADER_BYTES as int, raw.len() as int) =~= encode_utf8(frag));
    encode_utf8_valid_utf8(header);
    encode_utf8_decode_utf8(header);
    crate::decimal::lemma_padded_value(HEADER_BYTES as nat, 10);
    crate::decimal::lemma_padded_value(end as nat, 10);
    assert(crate::decimal::pow10(10) == 10_000_000_000) by {
        reveal_with_fuel(crate::decimal::pow10, 11);
    }
    crate::decimal::lemma_decimal_len(HEADER_BYTES as nat, 10);
    crate::decimal::lemma_decimal_len(end as nat, 10);
    assert forall|rest: Seq<char>|
        html_range_of(#[trigger] (decode_utf8(raw.take(HEADER_BYTES as int)) + rest)) == Some(
            (HEADER_BYTES as int, raw.len() as int),
        ) by {
        let h = header + rest;
        reveal_strlit("StartHtml:");
        reveal_strlit("EndHtml:");
        assert(h.subrange(13, 23) =~= header.subrange(13, 23));
        assert(h.subrange(23, 33) =~= header.subrange(23, 33));
        assert(h.subrange(35, 43) =~= header.subrange(35, 43));
        assert(h.subrange(43, 53) =~= header.subrange(43, 53));
        assert forall|k: int| 0 <= k < 13 implies !#[trigger] crate::text::occurs_at(
            h,
            "StartHtml:"@,
            k,
        ) by {
            if crate::text::occurs_at(h, "StartHtml:"@, k) {
                lemma_occurs_char(h, "StartHtml:"@, k, 0);
            }
        }
        assert forall|k: int| 0 <= k < 35 implies !#[trigger] crate::text::occurs_at(
            h,
            "EndHtml:"@,
            k,
        ) by {
            if crate::text::occurs_at(h, "EndHtml:"@, k) {
                lemma_occurs_char(h, "EndHtml:"@, k, 0);
            }
        }
        lemma_field(h, "StartHtml:"@, 13, offset_text(HEADER_BYTES as int), HEADER_BYTES as int);
        lemma_field(h, "EndHtml:"@, 35, offset_text(end), end);
    }
}

/// Parses a payload of the clipboard's "HTML Format" into the document it carries.
pub fn parse_cf_html(raw: &[u8]) -> (res: Option<String>)
    ensures
        match res {
            Some(s) => cf_html_document(raw@) == Some(s@),
            None => cf_html_document(raw@) is None,
        },
        forall|body: Seq<char>, whole: bool| #[trigger]
            carries(raw@, body, whole) ==> (res matches Some(s) && s@ == framed(body, whole)),
{
    let window: usize = if raw.len() < HEADER_WINDOW {
        raw.len()
    } else {
        HEADER_WINDOW
    };
    let head = slice_subrange(raw, 0, window);
    assert(raw@.take(window as int) =~= head@);
    let header = decode_lossy(head);
    assert forall|body: Seq<char>, whole: bool| #[trigger] carries(raw@, body, whole) implies {
        &&& html_range_of(header@) == Some((HEADER_BYTES as int, raw@.len() as int))
        &&& HEADER_BYTES < raw@.len()
    } by {
        assert(raw@.len() == raw.len());
        lemma_carried(raw@, body, whole);
        assert(head@.take(HEADER_BYTES as int) =~= raw@.take(HEADER_BYTES as int));
    }
    match html_range(header.as_str()) {
        None => None,
        Some((start, end)) => {
            if end <= start || end > raw.len() {
                let all = decode_lossy(raw);
                let mut tag: Vec<char> = Vec::new();
                tag.push('<');
                assert(tag@ =~= seq!['<']);
                if find_chars(&chars_of(all.as_str()), &tag).is_some() {
                    Some(all)
                } else {
                    None
                }
            } else {
                let part = slice_subrange(raw, start, end);
                let s = decode_lossy(part);
                let lower = s.as_str().to_lowercase();
                assert forall|body: Seq<char>, whole: bool| #[trigger]
                    carries(raw@, body, whole) implies s@ == framed(body, whole)
                    && crate::text::occurs(lower@, "<html"@) by {
                    lemma_carried(raw@, body, whole);
                    encode_utf8_valid_utf8(framed(body, whole));
                    encode_utf8_decode_utf8(framed(body, whole));
                    reveal_strlit("<html");
                    if !whole {
                        reveal_strlit("<html><body>\r\n<!--StartFragment-->");
                        assert(s@.take(5) =~= "<html"@);
                        assert(is_ascii_chars(s@.take(5)));
                        assert(lower@.subrange(0, 5) =~= "<html"@) by {
                            assert(lower@.take(5) =~= s@.take(5).map_values(
                                |c: char| crate::unicode::ascii_lower(c),
                            ));
                        }
                    }
                    assert(crate::text::occurs_at(lower@, "<html"@, 0));
                }
                Some(complete_document(s, lower.as_str()))
            }
        },
    }
}

/// How many bytes the header takes as long as every offset has at most ten digits.
pub const HEADER_BYTES: usize = 105;

/// The number of bytes of a text in UTF-8.
pub open spec fn byte_len(s: Seq<char>) -> int {
    encode_utf8(s).len() as int
}

/// The document that carries `body`: itself where it is a whole document, else a shell with the
/// marks of a fragment around it.
pub open spec fn framed(body: Seq<char>, whole: bool) -> Seq<char> {
    if whole {
        body
    } else {
        "<html><body>\r\n<!--StartFragment-->"@ + body + "<!--EndFragment-->\r\n</body></html>"@
    }
}

/// Where `body` starts in the document, in bytes.
pub open spec fn body_offset(whole: bool) -> int {
    if whole {
        0
    } else {
        byte_len("<html><body>\r\n<!--StartFragment-->"@)
    }
}

pub open spec fn offset_text(n: int) -> Seq<char> {
    crate::decimal::zero_padded(crate::decimal::decimal(n as nat), 10)
}

/// The header of offsets for a document of `end - 105` bytes.
pub open spec fn header_text(end: int, frag_start: int, frag_end: int) -> Seq<char> {
    "Version:0.9\r\nStartHtml:"@ + offset_text(HEADER_BYTES as int) + "\r\nEndHtml:"@
        + offset_text(end) + "\r\nStartFragment:"@ + offset_text(frag_start)
        + "\r\nEndFragment:"@ + offset_text(frag_end) + "\r\n"@
}

/// Header and document for `body`.
pub open spec fn cf_html_text(body: Seq<char>, whole: bool) -> Seq<char> {
    let start = HEADER_BYTES + body_offset(whole);
    header_text(
        HEADER_BYTES + byte_len(framed(body, whole)),
        start,
        start + byte_len(body),
    ) + framed(body, whole)
}

/// Writes header and document for `body`.
pub fn frame_cf_html(body: &str, whole: bool) -> (res: String)
    ensures
        res@ == cf_html_text(body@, whole),
{
    let mut doc = String::new();
    let mut off: u128 = 0;
    if whole {
        doc.append(body);
    } else {
        let pre = "<html><body>\r\n<!--StartFragment-->";
        off = pre.as_bytes().len() as u128;
        doc.append(pre);
        doc.append(body);
        doc.append("<!--EndFragment-->\r\n</body></html>");
    }
    assert(doc@ =~= framed(body@, whole));
    let hlen: u128 = HEADER_BYTES as u128;
    let start = hlen + off;
    let end = start + body.as_bytes().len() as u128;
    let mut out = "Version:0.9\r\nStartHtml:".to_owned();
    out.append(string_of(&padded_u128(hlen, 10)).as_str());
    out.append("\r\nEndHtml:");
    out.append(string_of(&padded_u128(hlen + doc.as_str().as_bytes().len() as u128, 10)).as_str());
    out.append("\r\nStartFragment:");
    out.append(string_of(&padded_u128(start, 10)).as_str());
    out.append("\r\nEndFragment:");
    out.append(string_of(&padded_u128(end, 10)).as_str());
    out.append("\r\n");
    out.append(doc.as_str());
    out
}

/// Whether a lower-case text starts with an `<html` tag.
pub open spec fn is_whole(lower: Seq<char>) -> bool {
    crate::text::occurs_at(lower, "<html"@, 0)
}

/// The payload that is put on the clipboard for `html`: header and document in UTF-8.
pub fn cf_html_payload(html: &str) -> (res: Vec<u8>)
    ensures
        ({
            let body = crate::text::trimmed(html@, CharClass::White);
            let whole = is_whole(crate::unicode::lowercase(body));
            &&& res@ == encode_utf8(cf_html_text(body, whole))
            &&& HEADER_BYTES + byte_len(framed(body, whole)) < 10_000_000_000 ==> carries(
                res@,
                body,
                whole,
            )
        }),
{
    let body = string_of(&trim_chars(&chars_of(html), CharClass::White));
    let lower = body.as_str().to_lowercase();
    let whole = matches_at(&chars_of(lower.as_str()), &chars_of("<html"), 0);
    proof {
        reveal_strlit("<html");
        if body@.len() == 0 {
            assert(is_ascii_chars(body@));
            assert(lower@.len() == 0);
        }
    }
    frame_cf_html(body.as_str(), whole).as_str().as_bytes_vec()
}

/// The two fragment offsets of a payload delimit the bytes of the body.
pub proof fn law_fragment_offsets(body: Seq<char>, whole: bool)
    requires
        HEADER_BYTES + byte_len(framed(body, whole)) < 10_000_000_000,
    ensures
        ({
            let raw = encode_utf8(cf_html_text(body, whole));
            let start = HEADER_BYTES + body_offset(whole);
            let end = start + byte_len(body);
            &&& start <= end <= raw.len()
            &&& raw.subrange(start, end) == encode_utf8(body)
        }),
{
    let frag = framed(body, whole);
    let start = HEADER_BYTES + body_offset(whole);
    let end = start + byte_len(body);
    let header = header_text(HEADER_BYTES + byte_len(frag), start, end);
    if !whole {
        let pre = "<html><body>\r\n<!--StartFragment-->"@;
        let post = "<!--EndFragment-->\r\n</body></html>"@;
        lemma_encode_concat(pre, body);
        lemma_encode_concat(pre + body, post);
    }
    lemma_header(HEADER_BYTES + byte_len(frag), start, end);
    lemma_encode_concat(header, frag);
    is_ascii_chars_encode_utf8(header);
    assert(encode_utf8(cf_html_text(body, whole)).subrange(start, end) =~= encode_utf8(body));
}

} // verus!
