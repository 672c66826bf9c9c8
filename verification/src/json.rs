//! Lists of strings as JSON arrays.

use vstd::prelude::*;

verus! {

pub open spec fn hex_digit(d: int) -> char {
    crate::digest::nibble_char(d)
}

/// How a character is written inside a JSON string.
pub open spec fn json_char(c: char) -> Seq<char> {
    if c == '"' || c == '\\' {
        seq!['\\', c]
    } else if c == '\u{8}' {
        seq!['\\', 'b']
    } else if c == '\t' {
        seq!['\\', 't']
    } else if c == '\n' {
        seq!['\\', 'n']
    } else if c == '\u{c}' {
        seq!['\\', 'f']
    } else if c == '\r' {
        seq!['\\', 'r']
    } else if (c as u32) < 0x20 {
        seq!['\\', 'u', '0', '0', hex_digit(c as u32 as int / 16), hex_digit(c as u32 as int % 16)]
    } else {
        seq![c]
    }
}

pub open spec fn json_chars(s: Seq<char>) -> Seq<char>
    decreases s.len(),
{
    if s.len() == 0 {
        seq![]
    } else {
        json_chars(s.drop_last()) + json_char(s.last())
    }
}

/// A JSON string.
pub open spec fn json_string(s: Seq<char>) -> Seq<char> {
    seq!['"'] + json_chars(s) + seq!['"']
}

/// A JSON array of strings, without spaces.
pub open spec fn json_array(list: Seq<Seq<char>>) -> Seq<char> {
    seq!['['] + crate::text::joined(
        Seq::new(list.len(), |i: int| json_string(list[i])),
        seq![','],
    ) + seq![']']
}

/// `serde_json::to_string` of a list of strings writes a JSON array without spaces. It escapes
/// the quotation mark, the backslash and the control characters, and does not fail.
#[verifier::external_body]
pub(crate) fn to_json(list: &Vec<String>) -> (res: String)
    ensures
        res@ == json_array(crate::text::views(list@)),
{
    serde_json::to_string(list).unwrap_or_default()
}

/// The list of strings that a JSON text stands for, where it is an array of strings.
pub uninterp spec fn json_strings(text: Seq<char>) -> Option<Seq<Seq<char>>>;

/// `serde_json::from_str` reads a list of strings from a JSON text; what comes out is a function
/// of the text. It reads back what `serde_json::to_string` writes.
#[verifier::external_body]
pub(crate) fn from_json(text: &str) -> (res: Option<Vec<String>>)
    ensures
        match res {
            Some(list) => json_strings(text@) == Some(crate::text::views(list@)),
            None => json_strings(text@) is None,
        },
        forall|l: Seq<Seq<char>>| #[trigger]
            json_array(l) == text@ ==> res is Some && crate::text::views(res->0@) == l,
{
    serde_json::from_str::<Vec<String>>(text).ok()
}

} // verus!
