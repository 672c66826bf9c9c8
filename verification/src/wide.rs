//! UTF-16, as the system's clipboard and window functions use it.

use crate::text::chars_of;
use crate::unicode::decode_utf16_lossy;
use vstd::prelude::*;
use vstd::slice::*;

verus! {

/// A character in UTF-16: one unit, or a pair of surrogates.
pub open spec fn utf16_char(c: char) -> Seq<u16> {
    let u = c as u32;
    if u < 0x10000 {
        seq![u as u16]
    } else {
        seq![
            (0xD800 + (u - 0x10000) / 0x400) as u16,
            (0xDC00 + (u - 0x10000) % 0x400) as u16,
        ]
    }
}

/// The range of characters.
proof fn lemma_char_range(c: char)
    ensures
        c as u32 <= 0x10ffff,
        c as u32 == 0 ==> c == '\0',
{
}

/// A text in UTF-16.
pub open spec fn utf16(s: Seq<char>) -> Seq<u16>
    decreases s.len(),
{
    if s.len() == 0 {
        seq![]
    } else {
        utf16(s.drop_last()) + utf16_char(s.last())
    }
}

/// The UTF-16 units of a text.
pub fn utf16_units(text: &str) -> (out: Vec<u16>)
    ensures
        out@ == utf16(text@),
{
    let chars = chars_of(text);
    let mut out: Vec<u16> = Vec::new();
    assert(out@ =~= utf16(chars@.take(0)));
    for i in 0..chars.len()
        invariant
            out@ == utf16(chars@.take(i as int)),
    {
        let c: char = chars[i];
        let u = c as u32;
        let ghost before = out@;
        if u < 0x10000 {
            out.push(u as u16);
        } else {
            proof {
                lemma_char_range(c);
            }
            let v = u - 0x10000;
            out.push((0xD800 + v / 0x400) as u16);
            out.push((0xDC00 + v % 0x400) as u16);
        }
        proof {
            assert(chars@.take(i + 1).drop_last() =~= chars@.take(i as int));
            assert(out@ =~= before + utf16_char(chars@[i as int]));
        }
    }
    assert(chars@.take(chars@.len() as int) =~= chars@);
    out
}

/// The UTF-16 units of a text with a NUL behind them, as the clipboard holds a text.
pub fn clipboard_units(text: &str) -> (out: Vec<u16>)
    ensures
        out@ == utf16(text@).push(0),
{
    let mut out = utf16_units(text);
    out.push(0);
    out
}

/// The units before the first NUL.
pub open spec fn before_nul(units: Seq<u16>) -> Seq<u16>
    decreases units.len(),
{
    if units.len() == 0 || units[0] == 0 {
        seq![]
    } else {
        seq![units[0]] + before_nul(units.drop_first())
    }
}

proof fn lemma_before_nul(units: Seq<u16>, n: int)
    requires
        0 <= n <= units.len(),
        n < units.len() ==> units[n] == 0,
        forall|k: int| 0 <= k < n ==> units[k] != 0,
    ensures
        before_nul(units) == units.take(n),
    decreases units.len(),
{
    if n == 0 {
        assert(units.take(0) =~= seq![]);
    } else {
        lemma_before_nul(units.drop_first(), n - 1);
        assert(units.take(n) =~= seq![units[0]] + units.drop_first().take(n - 1));
    }
}

/// A text without NUL has no unit 0.
proof fn lemma_no_nul_unit(s: Seq<char>)
    requires
        !s.contains('\0'),
    ensures
        forall|k: int| 0 <= k < utf16(s).len() ==> #[trigger] utf16(s)[k] != 0,
    decreases s.len(),
{
    if s.len() > 0 {
        let h = s.drop_last();
        assert(!h.contains('\0')) by {
            if h.contains('\0') {
                let k = choose|k: int| 0 <= k < h.len() && h[k] == '\0';
                assert(s[k] == '\0');
            }
        }
        lemma_no_nul_unit(h);
        let c: char = s.last();
        assert(s[s.len() - 1] == c);
        lemma_char_range(c);
        let u = utf16(s);
        assert forall|k: int| 0 <= k < u.len() implies #[trigger] u[k] != 0 by {
            if k < utf16(h).len() {
                assert(u[k] == utf16(h)[k]);
            }
        }
    }
}

/// The text that UTF-16 units stand for; it gives back a text that was written as UTF-16.
pub fn wide_text(units: &[u16]) -> (res: String)
    ensures
        res@ == crate::unicode::utf16_lossy(units@),
        forall|t: Seq<char>| #[trigger] utf16(t) == units@ ==> res@ == t,
{
    decode_utf16_lossy(units)
}

/// The text that the clipboard holds: what stands before the first NUL. It gives back a text
/// without NUL that was put on the clipboard, whatever follows it there.
pub fn clipboard_text(units: &[u16]) -> (res: String)
    ensures
        res@ == crate::unicode::utf16_lossy(before_nul(units@)),
        forall|t: Seq<char>, rest: Seq<u16>|
            !t.contains('\0') && #[trigger] (utf16(t).push(0) + rest) == units@ ==> res@ == t,
{
    let mut end: usize = 0;
    while end < units.len() && units[end] != 0
        invariant
            end <= units@.len(),
            forall|k: int| 0 <= k < end ==> units@[k] != 0,
        decreases units@.len() - end,
    {
        end += 1;
    }
    proof {
        lemma_before_nul(units@, end as int);
        assert(units@.take(end as int) =~= units@.subrange(0, end as int));
        assert forall|t: Seq<char>, rest: Seq<u16>|
            !t.contains('\0') && #[trigger] (utf16(t).push(0) + rest) == units@ implies utf16(t)
            == units@.subrange(0, end as int) by {
            lemma_no_nul_unit(t);
            let n = utf16(t).len() as int;
            assert(units@[n] == 0);
            assert forall|k: int| 0 <= k < n implies units@[k] == #[trigger] utf16(t)[k] by {}
            if end < n {
                assert(units@[end as int] == utf16(t)[end as int]);
            }
            assert(end == n);
            assert(utf16(t) =~= units@.subrange(0, end as int));
        }
    }
    decode_utf16_lossy(slice_subrange(units, 0, end))
}

/// A text in a buffer of `len` units: as much of it as leaves room for a NUL, then NULs.
pub open spec fn wide(s: Seq<char>, len: int) -> Seq<u16> {
    let units = utf16(s);
    Seq::new(
        len as nat,
        |i: int|
            if i < units.len() && i < len - 1 {
                units[i]
            } else {
                0u16
            },
    )
}

/// A text in a buffer of `len` units, NUL-terminated.
pub fn wide_str(s: &str, len: usize) -> (buf: Vec<u16>)
    requires
        len > 0,
    ensures
        buf@ == wide(s@, len as int),
{
    let units = utf16_units(s);
    let mut buf: Vec<u16> = Vec::new();
    for i in 0..len
        invariant
            len > 0,
            units@ == utf16(s@),
            buf@.len() == i,
            forall|k: int| 0 <= k < i ==> #[trigger] buf@[k] == wide(s@, len as int)[k],
    {
        if i < units.len() && i < len - 1 {
            buf.push(units[i]);
        } else {
            buf.push(0);
        }
    }
    assert(buf@ =~= wide(s@, len as int));
    buf
}

} // verus!
