//! Conversions that follow Unicode's tables: lossy decoding and lower case.

use vstd::prelude::*;
use vstd::utf8::*;

verus! {

/// The text that lossy UTF-8 decoding makes of `bytes`.
pub uninterp spec fn utf8_lossy(bytes: Seq<u8>) -> Seq<char>;

/// `String::from_utf8_lossy` decodes UTF-8 and puts U+FFFD in the place of what is not valid. Its
/// result is a function of the bytes. Valid bytes are decoded as they are, and so is a valid part
/// at the start of other bytes: only invalid sequences are replaced.
#[verifier::external_body]
pub(crate) fn decode_lossy(bytes: &[u8]) -> (res: String)
    ensures
        res@ == utf8_lossy(bytes@),
        valid_utf8(bytes@) ==> res@ == decode_utf8(bytes@),
        forall|n: int|
            0 <= n <= bytes@.len() && valid_utf8(#[trigger] bytes@.take(n)) ==> res@
                == decode_utf8(bytes@.take(n)) + utf8_lossy(bytes@.skip(n)),
{
    String::from_utf8_lossy(bytes).into_owned()
}

/// The text that lossy UTF-16 decoding makes of `units`.
pub uninterp spec fn utf16_lossy(units: Seq<u16>) -> Seq<char>;

/// `String::from_utf16_lossy` decodes UTF-16 and puts U+FFFD in the place of what is not valid.
/// Its result is a function of the units. The units of a text give back the text.
#[verifier::external_body]
pub(crate) fn decode_utf16_lossy(units: &[u16]) -> (res: String)
    ensures
        res@ == utf16_lossy(units@),
        forall|t: Seq<char>| #[trigger] crate::wide::utf16(t) == units@ ==> res@ == t,
{
    String::from_utf16_lossy(units)
}

/// The lower-case form of a text.
pub uninterp spec fn lowercase(s: Seq<char>) -> Seq<char>;

pub open spec fn ascii_lower(c: char) -> char {
    if 'A' <= c <= 'Z' {
        (c as u32 + 32) as char
    } else {
        c
    }
}

/// `c` with an upper-case ASCII letter replaced by its lower-case one.
pub fn to_ascii_lower(c: char) -> (res: char)
    ensures
        res == ascii_lower(c),
{
    if c >= 'A' && c <= 'Z' {
        (c as u8 + 32) as char
    } else {
        c
    }
}

/// `str::to_lowercase` gives the lower-case form of a text, which is a function of the text. The
/// ASCII characters at the start of a text become their ASCII lower-case forms, and an ASCII text
/// has no other characters than these in its lower-case form.
pub assume_specification[ str::to_lowercase ](s: &str) -> (res: String)
    ensures
        res@ == lowercase(s@),
        forall|n: int|
            0 <= n <= s@.len() && is_ascii_chars(#[trigger] s@.take(n)) ==> n <= res@.len()
                && res@.take(n) == s@.take(n).map_values(|c: char| ascii_lower(c)),
        is_ascii_chars(s@) ==> res@ == s@.map_values(|c: char| ascii_lower(c)),
;

} // verus!
