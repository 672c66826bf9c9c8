//! Laws of numbers and units: decimal digits, UTF-16 and times.

use crate::wide::{clipboard_text, clipboard_units, utf16_units, wide_str, wide_text};
use vstd::prelude::*;

verus! {

/// A digit by itself is read as its value.
pub proof fn law_digit_read(c: char, lo: int, hi: int)
    requires
        '0' <= c <= '9',
        lo <= c as int - '0' as int <= hi,
    ensures
        crate::decimal::parsed_int(seq![c], lo, hi) == Some(c as int - '0' as int),
{
    let s = seq![c];
    assert(s.drop_last() =~= seq![]);
    reveal_with_fuel(crate::decimal::digits_value, 2);
}

/// One digit more makes the number ten times as large and adds the digit, away from zero.
pub proof fn law_digit_appended(s: Seq<char>, c: char, lo: int, hi: int, n: int)
    requires
        '0' <= c <= '9',
        crate::decimal::parsed_int(s, lo, hi) == Some(n),
        ({
            let d = c as int - '0' as int;
            lo <= (if s[0] == '-' {
                10 * n - d
            } else {
                10 * n + d
            }) <= hi
        }),
    ensures
        ({
            let d = c as int - '0' as int;
            crate::decimal::parsed_int(s.push(c), lo, hi) == Some(
                if s[0] == '-' {
                    10 * n - d
                } else {
                    10 * n + d
                },
            )
        }),
{
    let t = s.push(c);
    if s[0] == '-' && lo >= 0 {
        crate::decimal::lemma_not_digits(s, 0);
    }
    let signed = s[0] == '+' || s[0] == '-';
    let digits = if signed {
        s.drop_first()
    } else {
        s
    };
    let more = if signed {
        t.drop_first()
    } else {
        t
    };
    assert(more =~= digits.push(c));
    assert(more.drop_last() =~= digits);
}

/// A plus sign changes nothing before digits.
pub proof fn law_plus_sign(s: Seq<char>, lo: int, hi: int)
    requires
        s.len() > 0,
        '0' <= s[0] <= '9',
    ensures
        crate::decimal::parsed_int(seq!['+'] + s, lo, hi) == crate::decimal::parsed_int(s, lo, hi),
{
    assert((seq!['+'] + s).drop_first() =~= s);
}

/// A minus sign before digits gives the opposite number, where numbers below zero are read.
pub proof fn law_minus_sign(s: Seq<char>, lo: int, hi: int, n: int)
    requires
        s.len() > 0,
        '0' <= s[0] <= '9',
        crate::decimal::parsed_int(s, 0, -lo) == Some(n),
        lo < 0,
        -n <= hi,
    ensures
        crate::decimal::parsed_int(seq!['-'] + s, lo, hi) == Some(-n),
        crate::decimal::parsed_int(seq!['-'] + s, 0, hi) is None,
{
    let t = seq!['-'] + s;
    assert(t.drop_first() =~= s);
    assert(t[0] == '-');
    crate::decimal::lemma_not_digits(t, 0);
}

/// What is read as a number is within the limits, and has only digits behind its sign, at least
/// one of them.
pub proof fn law_number_shape(s: Seq<char>, lo: int, hi: int)
    requires
        crate::decimal::parsed_int(s, lo, hi) is Some,
    ensures
        lo <= crate::decimal::parsed_int(s, lo, hi)->0 <= hi,
        s.len() > 0,
        '0' <= s.last() <= '9',
        forall|i: int| 1 <= i < s.len() ==> '0' <= #[trigger] s[i] <= '9',
        '0' <= s[0] <= '9' || (s.len() > 1 && (s[0] == '+' || (s[0] == '-' && lo < 0))),
{
    let signed = s[0] == '+' || (s[0] == '-' && lo < 0);
    let digits = if signed {
        s.drop_first()
    } else {
        s
    };
    assert forall|i: int| 0 <= i < digits.len() implies '0' <= #[trigger] digits[i] <= '9' by {
        if !crate::decimal::is_digit(digits[i]) {
            crate::decimal::lemma_not_digits(digits, i);
        }
    }
    assert forall|i: int| 1 <= i < s.len() implies '0' <= #[trigger] s[i] <= '9' by {
        if signed {
            assert(s[i] == digits[i - 1]);
        } else {
            assert(s[i] == digits[i]);
        }
    }
    if !signed {
        assert(s[0] == digits[0]);
    }
}

/// A number is written with digits alone, without a zero in front unless it is zero, and with a
/// minus sign before them where it is below zero.
pub proof fn law_number_written(n: int)
    ensures
        ({
            let s = crate::decimal::decimal_int(n);
            let digits = if n < 0 {
                s.drop_first()
            } else {
                s
            };
            &&& s.len() > 0
            &&& n < 0 ==> s[0] == '-'
            &&& digits.len() > 0
            &&& forall|i: int| 0 <= i < digits.len() ==> '0' <= #[trigger] digits[i] <= '9'
            &&& digits[0] == '0' ==> n == 0 && digits.len() == 1
        }),
{
    let m: nat = if n < 0 {
        (-n) as nat
    } else {
        n as nat
    };
    crate::decimal::lemma_decimal_value(m);
    lemma_first_digit(m);
    let s = crate::decimal::decimal_int(n);
    if n < 0 {
        assert(s.drop_first() =~= crate::decimal::decimal(m));
    }
    let digits = crate::decimal::decimal(m);
    assert forall|i: int| 0 <= i < digits.len() implies '0' <= #[trigger] digits[i] <= '9' by {
        assert(crate::decimal::is_digit(digits[i]));
    }
}

proof fn lemma_first_digit(n: nat)
    ensures
        crate::decimal::decimal(n).len() > 0,
        crate::decimal::decimal(n)[0] == '0' ==> n == 0,
        n == 0 ==> crate::decimal::decimal(n).len() == 1,
    decreases n,
{
    if n >= 10 {
        lemma_first_digit(n / 10);
        assert(crate::decimal::decimal(n)[0] == crate::decimal::decimal(n / 10)[0]);
    }
}

/// Padding puts zeros in front up to the width, and cuts nothing off.
pub proof fn law_padded(digits: Seq<char>, width: nat)
    ensures
        ({
            let p = crate::decimal::zero_padded(digits, width);
            let zeros = p.len() - digits.len();
            &&& p.len() == width || (p.len() == digits.len() && digits.len() > width)
            &&& zeros >= 0
            &&& p.skip(zeros) == digits
            &&& forall|i: int| 0 <= i < zeros ==> #[trigger] p[i] == '0'
        }),
{
    let p = crate::decimal::zero_padded(digits, width);
    assert(p.skip(p.len() - digits.len()) =~= digits);
}

/// A character below U+10000 is one unit of the same value; another one is a high and a low
/// surrogate that hold ten bits each of what it is above U+10000.
pub proof fn law_units_of_char(c: char)
    ensures
        ({
            let u = crate::wide::utf16(seq![c]);
            &&& (c as int) < 0x10000 ==> u.len() == 1 && u[0] == c as int
            &&& (c as int) >= 0x10000 ==> {
                &&& u.len() == 2
                &&& 0xd800 <= u[0] < 0xdc00
                &&& 0xdc00 <= u[1] < 0xe000
                &&& (u[0] - 0xd800) * 0x400 + (u[1] - 0xdc00) == c as int - 0x10000
            }
        }),
{
    assert(c as u32 <= 0x10ffff);
    let s = seq![c];
    reveal_with_fuel(crate::wide::utf16, 2);
    assert(s.drop_last() =~= seq![]);
    assert(crate::wide::utf16(s) =~= crate::wide::utf16_char(c));
}

/// The units of two texts, one after the other, are the units of the one and those of the other.
pub proof fn law_units_meet(a: Seq<char>, b: Seq<char>)
    ensures
        crate::wide::utf16(a + b) == crate::wide::utf16(a) + crate::wide::utf16(b),
        crate::wide::utf16(seq![]) == Seq::<u16>::empty(),
    decreases b.len(),
{
    if b.len() == 0 {
        assert(a + b =~= a);
        assert(crate::wide::utf16(a) + crate::wide::utf16(b) =~= crate::wide::utf16(a));
    } else {
        law_units_meet(a, b.drop_last());
        assert((a + b).drop_last() =~= a + b.drop_last());
        assert(crate::wide::utf16(a + b) =~= crate::wide::utf16(a) + crate::wide::utf16(b));
    }
}

/// A text without NUL that goes on the clipboard comes back from it, with or without more units
/// behind its end.
pub proof fn law_clipboard_text_comes_back(
    text: &str,
    units: Vec<u16>,
    held: &[u16],
    more: Seq<u16>,
    res: String,
)
    requires
        !text@.contains('\0'),
        call_ensures(clipboard_units, (text,), units),
        held@ == units@ + more,
        call_ensures(clipboard_text, (held,), res),
    ensures
        res@ == text@,
{
    assert(crate::wide::utf16(text@).push(0) + more == held@);
}

/// A text that is written in UTF-16 reads back as it was.
pub proof fn law_wide_text_comes_back(text: &str, units: Vec<u16>, held: &[u16], res: String)
    requires
        call_ensures(utf16_units, (text,), units),
        held@ == units@,
        call_ensures(wide_text, (held,), res),
    ensures
        res@ == text@,
{
    assert(crate::wide::utf16(text@) == held@);
}

/// What goes on the clipboard are the units of the text and a NUL.
pub proof fn law_clipboard_units(text: &str, units: Vec<u16>, res: Vec<u16>)
    requires
        call_ensures(utf16_units, (text,), units),
        call_ensures(clipboard_units, (text,), res),
    ensures
        res@.drop_last() == units@,
        res@.len() == units@.len() + 1,
        res@.last() == 0,
{
    assert(res@.drop_last() =~= units@);
}

/// What follows the first NUL on the clipboard is not part of its text.
pub proof fn law_clipboard_text_ends(a: &[u16], b: &[u16], n: int, x: String, y: String)
    requires
        0 <= n < a@.len(),
        n < b@.len(),
        a@.take(n) == b@.take(n),
        a@[n] == 0,
        b@[n] == 0,
        call_ensures(clipboard_text, (a,), x),
        call_ensures(clipboard_text, (b,), y),
    ensures
        x@ == y@,
{
    lemma_same_before_nul(a@, b@, n);
}

proof fn lemma_same_before_nul(a: Seq<u16>, b: Seq<u16>, n: int)
    requires
        0 <= n < a.len(),
        n < b.len(),
        a.take(n) == b.take(n),
        a[n] == 0,
        b[n] == 0,
    ensures
        crate::wide::before_nul(a) == crate::wide::before_nul(b),
    decreases n,
{
    if n > 0 {
        assert(a.take(n)[0] == a[0]);
        assert(b.take(n)[0] == b[0]);
        assert(a.drop_first().take(n - 1) =~= a.take(n).drop_first());
        assert(b.drop_first().take(n - 1) =~= b.take(n).drop_first());
        lemma_same_before_nul(a.drop_first(), b.drop_first(), n - 1);
    }
    assert(crate::wide::before_nul(a) =~= crate::wide::before_nul(b));
}

/// A buffer has the length asked for and ends in NUL; before that stand the units of the text as
/// far as they fit, and then nothing but NUL.
pub proof fn law_buffer(s: &str, len: usize, buf: Vec<u16>)
    requires
        len > 0,
        call_ensures(wide_str, (s, len), buf),
    ensures
        buf@.len() == len,
        buf@.last() == 0,
        crate::wide::utf16(s@).len() < len ==> crate::wide::utf16(s@).is_prefix_of(buf@),
        crate::wide::utf16(s@).len() >= len ==> buf@.drop_last() == crate::wide::utf16(s@).take(
            len - 1,
        ),
        forall|i: int| crate::wide::utf16(s@).len() <= i < len ==> #[trigger] buf@[i] == 0,
{
    let u = crate::wide::utf16(s@);
    if u.len() < len {
        assert(buf@.take(u.len() as int) =~= u);
    } else {
        assert(buf@.drop_last() =~= u.take(len - 1));
    }
}

/// A text with a NUL in it is cut there for a comparison in the database; another is left whole.
pub proof fn law_cut_at_nul(a: Seq<char>, b: Seq<char>)
    requires
        !a.contains('\0'),
    ensures
        crate::like::c_str(a + seq!['\0'] + b) == a,
        crate::like::c_str(a) == a,
    decreases a.len(),
{
    crate::like::lemma_c_str_whole(a);
    let s = a + seq!['\0'] + b;
    if a.len() > 0 {
        assert(a.contains(a[0]));
        assert(!a.drop_first().contains('\0')) by {
            if a.drop_first().contains('\0') {
                let k = choose|k: int| 0 <= k < a.len() - 1 && a.drop_first()[k] == '\0';
                assert(a[k + 1] == '\0');
            }
        }
        law_cut_at_nul(a.drop_first(), b);
        assert(s.drop_first() =~= a.drop_first() + seq!['\0'] + b);
        assert(crate::like::c_str(s) =~= a);
    } else {
        assert(s[0] == '\0');
        assert(crate::like::c_str(s) =~= a);
    }
}

} // verus!
