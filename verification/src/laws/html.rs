//! Laws of the clipboard's "HTML Format".

use crate::cf_html::{cf_html_payload, complete_document, parse_cf_html};
use vstd::prelude::*;
use vstd::utf8::*;

verus! {

/// A text whose lower-case form has `<html` in it, at whatever place, is a document as it is.
pub proof fn law_document_kept(s: String, lower: &str, a: Seq<char>, b: Seq<char>, res: String)
    requires
        lower@ == a + "<html"@ + b,
        call_ensures(complete_document, (s, lower), res),
    ensures
        res@ == s@,
{
    crate::laws::texts::lemma_part_occurs(lower@, a, "<html"@, b);
}

/// A text whose lower-case form has `<html` nowhere becomes the body of a document.
pub proof fn law_document_put_around(s: String, lower: &str, res: String)
    requires
        forall|a: Seq<char>, b: Seq<char>| lower@ != #[trigger] (a + "<html"@ + b),
        call_ensures(complete_document, (s, lower), res),
    ensures
        res@ == "<html><body>"@ + s@ + "</body></html>"@,
{
    crate::laws::texts::lemma_no_part(lower@, "<html"@);
}

/// The number of a header field is what stands between the first occurrence of its key and the
/// end of that line, white space apart.
pub proof fn law_header_field(
    header: Seq<char>,
    key: Seq<char>,
    a: Seq<char>,
    line: Seq<char>,
    rest: Seq<char>,
)
    requires
        header == a + key + line + rest,
        forall|k: int| 0 <= k < a.len() ==> !#[trigger] crate::text::occurs_at(header, key, k),
        forall|k: int| 0 <= k < line.len() ==> line[k] != '\r' && line[k] != '\n',
        rest.len() > 0 ==> rest[0] == '\r' || rest[0] == '\n',
    ensures
        crate::cf_html::header_field(header, key) == crate::decimal::parsed_int(
            crate::text::trimmed(line, crate::text::CharClass::White),
            0,
            usize::MAX as int,
        ),
{
    assert(header =~= a + key + (line + rest));
    crate::laws::texts::lemma_part_occurs(header, a, key, line + rest);
    assert(crate::cf_html::first_occurs_at(header, key, a.len() as int));
    crate::cf_html::lemma_first_occurrence(header, key, a.len() as int);
    let after = header.skip(a.len() as int + key.len());
    assert(after =~= line + rest);
    crate::cf_html::lemma_first_line(after, line.len() as int);
    assert(after.take(line.len() as int) =~= line);
}

/// A header without a key has no field of that key.
pub proof fn law_header_field_missing(header: Seq<char>, key: Seq<char>)
    requires
        forall|a: Seq<char>, b: Seq<char>| header != #[trigger] (a + key + b),
    ensures
        crate::cf_html::header_field(header, key) is None,
{
    crate::laws::texts::lemma_no_part(header, key);
}

/// The text of the part of a payload that is searched for the header: its first 512 bytes.
pub open spec fn head_text(raw: Seq<u8>) -> Seq<char> {
    crate::unicode::utf8_lossy(
        if raw.len() < 512 {
            raw
        } else {
            raw.take(512)
        },
    )
}

proof fn lemma_head_text(raw: Seq<u8>)
    ensures
        head_text(raw) == crate::unicode::utf8_lossy(
            raw.take(
                if raw.len() < 512 {
                    raw.len() as int
                } else {
                    512
                },
            ),
        ),
{
    assert(raw.take(raw.len() as int) =~= raw);
}

/// A payload whose header names a part of it is read as the text of that part: just that text
/// where its lower-case form has `<html` at any place, and that text inside a document where it
/// has it nowhere.
pub proof fn law_named_part_read(raw: &[u8], start: int, end: int, res: Option<String>)
    requires
        call_ensures(parse_cf_html, (raw,), res),
        crate::cf_html::header_field(head_text(raw@), "StartHtml:"@) == Some(start),
        crate::cf_html::header_field(head_text(raw@), "EndHtml:"@) == Some(end),
        0 <= start < end <= raw@.len(),
    ensures
        res is Some,
        ({
            let text = crate::unicode::utf8_lossy(raw@.subrange(start, end));
            let lower = crate::unicode::lowercase(text);
            &&& (exists|a: Seq<char>, b: Seq<char>| lower == #[trigger] (a + "<html"@ + b))
                ==> res->0@ == text
            &&& (forall|a: Seq<char>, b: Seq<char>| lower != #[trigger] (a + "<html"@ + b))
                ==> res->0@ == "<html><body>"@ + text + "</body></html>"@
        }),
{
    lemma_head_text(raw@);
    let text = crate::unicode::utf8_lossy(raw@.subrange(start, end));
    crate::laws::texts::law_occurs(crate::unicode::lowercase(text), "<html"@);
}

/// A payload whose header names no part of it is read as a whole where there is a `<` in it, and
/// not at all where there is none.
pub proof fn law_bad_part_read(raw: &[u8], start: int, end: int, res: Option<String>)
    requires
        call_ensures(parse_cf_html, (raw,), res),
        crate::cf_html::header_field(head_text(raw@), "StartHtml:"@) == Some(start),
        crate::cf_html::header_field(head_text(raw@), "EndHtml:"@) == Some(end),
        end <= start || raw@.len() < end,
    ensures
        res is Some <==> crate::unicode::utf8_lossy(raw@).contains('<'),
        res is Some ==> res->0@ == crate::unicode::utf8_lossy(raw@),
{
    lemma_head_text(raw@);
    let all = crate::unicode::utf8_lossy(raw@);
    if all.contains('<') {
        let i = choose|i: int| 0 <= i < all.len() && all[i] == '<';
        assert(all.subrange(i, i + 1) =~= seq!['<']);
        assert(crate::text::occurs_at(all, seq!['<'], i));
    }
    if crate::text::occurs(all, seq!['<']) {
        let i = choose|i: int| crate::text::occurs_at(all, seq!['<'], i);
        assert(all.subrange(i, i + 1)[0] == all[i]);
        assert(seq!['<'][0] == '<');
    }
}

/// A payload that lacks either offset is not read.
pub proof fn law_no_part_unread(raw: &[u8], res: Option<String>)
    requires
        call_ensures(parse_cf_html, (raw,), res),
        crate::cf_html::header_field(head_text(raw@), "StartHtml:"@) is None
            || crate::cf_html::header_field(head_text(raw@), "EndHtml:"@) is None,
    ensures
        res is None,
{
    lemma_head_text(raw@);
}

/// Whether `body` is `html` without the white space at its ends.
pub open spec fn is_core(html: Seq<char>, body: Seq<char>) -> bool {
    let white = crate::text::CharClass::White;
    &&& exists|a: Seq<char>, b: Seq<char>|
        {
            &&& html == #[trigger] (a + body + b)
            &&& crate::laws::texts::all_in(a, white)
            &&& crate::laws::texts::all_in(b, white)
        }
    &&& body.len() > 0 ==> !crate::text::is_white(body[0]) && !crate::text::is_white(body.last())
}

proof fn lemma_field_behind(
    header: Seq<char>,
    rest: Seq<char>,
    key: Seq<char>,
    at: int,
    n: int,
    first: char,
    other: int,
    j: int,
)
    requires
        key.len() > j > 0,
        key[0] == first,
        0 <= at,
        0 <= n < 10_000_000_000,
        n <= usize::MAX,
        at + key.len() + 10 < header.len(),
        header.subrange(at, at + key.len()) == key,
        header.subrange(at + key.len(), at + key.len() + 10) == crate::cf_html::offset_text(n),
        header[at + key.len() + 10] == '\r',
        forall|k: int| 0 <= k < at && #[trigger] header[k] == first ==> k == other,
        0 <= other < at ==> other + j < header.len() && header[other + j] != key[j],
    ensures
        crate::cf_html::header_field(header + rest, key) == Some(n),
{
    let h = header + rest;
    crate::decimal::lemma_padded_value(n as nat, 10);
    assert(crate::decimal::pow10(10) == 10_000_000_000) by {
        reveal_with_fuel(crate::decimal::pow10, 11);
    }
    crate::decimal::lemma_decimal_len(n as nat, 10);
    assert forall|k: int| 0 <= k < at implies !#[trigger] crate::text::occurs_at(h, key, k) by {
        if crate::text::occurs_at(h, key, k) {
            crate::cf_html::lemma_occurs_char(h, key, k, 0);
            assert(header[k] == first);
            crate::cf_html::lemma_occurs_char(h, key, k, j);
        }
    }
    assert(h.subrange(at, at + key.len()) =~= key);
    let digits = crate::cf_html::offset_text(n);
    assert(digits.len() == 10);
    assert(h.subrange(at + key.len(), at + key.len() + digits.len()) =~= digits);
    crate::cf_html::lemma_field(h, key, at, digits, n);
}

/// A payload made of `html` is in UTF-8. Its header names two parts: the document, which runs to
/// the end of the payload, and the fragment, which is `html` without the white space at its ends.
/// The document is the fragment where that starts with an `<html` tag in its lower-case form, and
/// else has the fragment between the two marks.
pub proof fn law_payload_parts(html: &str, body: Seq<char>, res: Vec<u8>)
    requires
        call_ensures(cf_html_payload, (html,), res),
        is_core(html@, body),
        encode_utf8(body).len() < 9_000_000_000,
    ensures
        ({
            let text = decode_utf8(res@);
            let start = crate::cf_html::header_field(text, "StartHtml:"@);
            let end = crate::cf_html::header_field(text, "EndHtml:"@);
            let from = crate::cf_html::header_field(text, "StartFragment:"@);
            let to = crate::cf_html::header_field(text, "EndFragment:"@);
            let whole = "<html"@.is_prefix_of(crate::unicode::lowercase(body));
            &&& valid_utf8(res@)
            &&& "Version:0.9\r\n"@.is_prefix_of(text)
            &&& start is Some && end is Some && from is Some && to is Some
            &&& end->0 == res@.len()
            &&& res@.subrange(from->0, to->0) == encode_utf8(body)
            &&& whole ==> res@.subrange(start->0, end->0) == encode_utf8(body)
            &&& !whole ==> res@.subrange(start->0, end->0) == encode_utf8(
                "<html><body>\r\n<!--StartFragment-->"@ + body
                    + "<!--EndFragment-->\r\n</body></html>"@,
            )
        }),
{
    reveal_strlit("<html");
    lemma_core(html@, body);
    let lower = crate::unicode::lowercase(body);
    let whole = crate::cf_html::is_whole(lower);
    assert(whole == "<html"@.is_prefix_of(lower)) by {
        if lower.len() >= 5 {
            assert(lower.subrange(0, 5) =~= lower.take(5));
        }
        if whole {
            assert(lower.subrange(0, 5) =~= "<html"@);
        }
    }
    reveal_strlit("<html><body>\r\n<!--StartFragment-->");
    reveal_strlit("<!--EndFragment-->\r\n</body></html>");
    let pre = "<html><body>\r\n<!--StartFragment-->"@;
    let post = "<!--EndFragment-->\r\n</body></html>"@;
    is_ascii_chars_encode_utf8(pre);
    is_ascii_chars_encode_utf8(post);
    crate::cf_html::lemma_encode_concat(pre, body);
    crate::cf_html::lemma_encode_concat(pre + body, post);
    let frag = crate::cf_html::framed(body, whole);
    let head = crate::cf_html::HEADER_BYTES as int;
    let start = head + crate::cf_html::body_offset(whole);
    let stop = start + crate::cf_html::byte_len(body);
    let end = head + crate::cf_html::byte_len(frag);
    let header = crate::cf_html::header_text(end, start, stop);
    crate::cf_html::lemma_header(end, start, stop);
    encode_utf8_valid_utf8(header + frag);
    encode_utf8_decode_utf8(header + frag);
    let text = decode_utf8(res@);
    assert(text == header + frag);
    crate::cf_html::law_fragment_offsets(body, whole);
    crate::cf_html::lemma_encode_concat(header, frag);
    is_ascii_chars_encode_utf8(header);
    assert(res@.len() == res.len());
    reveal_strlit("StartHtml:");
    reveal_strlit("EndHtml:");
    reveal_strlit("StartFragment:");
    reveal_strlit("EndFragment:");
    reveal_strlit("Version:0.9\r\n");
    lemma_field_behind(header, frag, "StartHtml:"@, 13, head, 'S', 13, 5);
    lemma_field_behind(header, frag, "EndHtml:"@, 35, end, 'E', 35, 3);
    lemma_field_behind(header, frag, "StartFragment:"@, 55, start, 'S', 13, 5);
    lemma_field_behind(header, frag, "EndFragment:"@, 81, stop, 'E', 35, 3);
    assert(res@.subrange(head, end) =~= encode_utf8(frag));
    assert(text.take(13) =~= header.take(13));
}

/// What a payload made of `html` is read as: `html` without the white space at its ends where
/// that starts with an `<html` tag in its lower-case form, and else that between the two marks.
pub proof fn law_payload_reads_back(
    html: &str,
    body: Seq<char>,
    made: Vec<u8>,
    raw: &[u8],
    res: Option<String>,
)
    requires
        call_ensures(cf_html_payload, (html,), made),
        raw@ == made@,
        call_ensures(parse_cf_html, (raw,), res),
        is_core(html@, body),
        encode_utf8(body).len() < 9_000_000_000,
    ensures
        res is Some,
        "<html"@.is_prefix_of(crate::unicode::lowercase(body)) ==> res->0@ == body,
        !"<html"@.is_prefix_of(crate::unicode::lowercase(body)) ==> res->0@
            == "<html><body>\r\n<!--StartFragment-->"@ + body
            + "<!--EndFragment-->\r\n</body></html>"@,
{
    reveal_strlit("<html");
    lemma_core(html@, body);
    let lower = crate::unicode::lowercase(body);
    let whole = crate::cf_html::is_whole(lower);
    if lower.len() >= 5 {
        assert(lower.subrange(0, 5) =~= lower.take(5));
    }
    reveal_strlit("<html><body>\r\n<!--StartFragment-->");
    reveal_strlit("<!--EndFragment-->\r\n</body></html>");
    let pre = "<html><body>\r\n<!--StartFragment-->"@;
    let post = "<!--EndFragment-->\r\n</body></html>"@;
    is_ascii_chars_encode_utf8(pre);
    is_ascii_chars_encode_utf8(post);
    crate::cf_html::lemma_encode_concat(pre, body);
    crate::cf_html::lemma_encode_concat(pre + body, post);
    assert(crate::cf_html::carries(raw@, body, whole));
}

/// Stripping gives the core of a text.
pub proof fn lemma_core(html: Seq<char>, body: Seq<char>)
    requires
        is_core(html, body),
    ensures
        crate::text::trimmed(html, crate::text::CharClass::White) == body,
{
    let white = crate::text::CharClass::White;
    let (a, b) = choose|a: Seq<char>, b: Seq<char>|
        {
            &&& html == #[trigger] (a + body + b)
            &&& crate::laws::texts::all_in(a, white)
            &&& crate::laws::texts::all_in(b, white)
        };
    crate::laws::texts::law_stripped(a, body, b, white);
}

} // verus!
