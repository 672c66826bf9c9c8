//! Decimal numbers: reading them the way `FromStr` of the integer types does, and writing them.

use vstd::prelude::*;

verus! {

pub open spec fn is_digit(c: char) -> bool {
    '0' <= c <= '9'
}

pub open spec fn digit_value(c: char) -> int {
    c as u32 - '0' as u32
}

/// The character of a number below ten.
pub open spec fn digit_char(d: int) -> char {
    ('0' as u32 + d) as char
}

/// The number that a run of digits stands for; `None` where another character occurs.
pub open spec fn digits_value(s: Seq<char>) -> Option<int>
    decreases s.len(),
{
    if s.len() == 0 {
        Some(0)
    } else if !is_digit(s.last()) {
        None
    } else {
        match digits_value(s.drop_last()) {
            Some(v) => Some(v * 10 + digit_value(s.last())),
            None => None,
        }
    }
}

/// The integer that `s` stands for, where it lies between `lo` and `hi`. A sign `+` may precede
/// the digits, and a sign `-` where `lo` is negative; at least one digit is needed.
pub open spec fn parsed_int(s: Seq<char>, lo: int, hi: int) -> Option<int> {
    let plus = s.len() > 0 && s[0] == '+';
    let minus = s.len() > 0 && s[0] == '-' && lo < 0;
    let digits = if plus || minus {
        s.drop_first()
    } else {
        s
    };
    if digits.len() == 0 {
        None
    } else {
        match digits_value(digits) {
            Some(v) => {
                let n = if minus {
                    -v
                } else {
                    v
                };
                if lo <= n <= hi {
                    Some(n)
                } else {
                    None
                }
            },
            None => None,
        }
    }
}

/// The digits of `n`, without leading zeros.
pub open spec fn decimal(n: nat) -> Seq<char>
    decreases n,
{
    if n < 10 {
        seq![digit_char(n as int)]
    } else {
        decimal(n / 10).push(digit_char((n % 10) as int))
    }
}

/// The digits of `n`, with the sign `-` before them where `n` is negative.
pub open spec fn decimal_int(n: int) -> Seq<char> {
    if n < 0 {
        seq!['-'] + decimal((-n) as nat)
    } else {
        decimal(n as nat)
    }
}

/// `digits` with zeros before it up to `width` characters.
pub open spec fn zero_padded(digits: Seq<char>, width: nat) -> Seq<char> {
    if digits.len() >= width {
        digits
    } else {
        Seq::new((width - digits.len()) as nat, |i: int| '0') + digits
    }
}

/// Above this value a number is no longer tracked exactly.
const LIMIT: i128 = 0x1_0000_0000_0000_0000;

/// The integer in the string, as `parsed_int` defines it.
fn parse_int(s: &Vec<char>, lo: i128, hi: i128) -> (res: Option<i128>)
    requires
        -LIMIT <= lo <= hi <= LIMIT,
    ensures
        match res {
            Some(n) => parsed_int(s@, lo as int, hi as int) == Some(n as int),
            None => parsed_int(s@, lo as int, hi as int) is None,
        },
{
    let plus = s.len() > 0 && s[0] == '+';
    let minus = s.len() > 0 && s[0] == '-' && lo < 0;
    let from: usize = if plus || minus {
        1
    } else {
        0
    };
    let ghost digits = s@.skip(from as int);
    assert(from == 1 ==> digits =~= s@.drop_first());
    assert(from == 0 ==> digits =~= s@);
    if from == s.len() {
        return None;
    }
    let mut i: usize = from;
    let mut v: i128 = 0;
    let mut big = false;
    while i < s.len()
        invariant
            from <= i <= s@.len(),
            plus == (s@.len() > 0 && s@[0] == '+'),
            minus == (s@.len() > 0 && s@[0] == '-' && lo < 0),
            from == (if plus || minus {
                1int
            } else {
                0int
            }),
            digits == s@.skip(from as int),
            digits == (if plus || minus {
                s@.drop_first()
            } else {
                s@
            }),
            0 <= v <= LIMIT,
            digits_value(digits.take(i - from)) matches Some(x) && (if big {
                x > LIMIT
            } else {
                x == v
            }),
        decreases s@.len() - i,
    {
        let c = s[i];
        let ghost t = digits.take(i + 1 - from);
        assert(t.drop_last() =~= digits.take(i - from));
        if c < '0' || c > '9' {
            proof {
                lemma_not_digits(digits, i - from);
            }
            return None;
        }
        let d = (c as u32 - '0' as u32) as i128;
        if !big {
            let w = v * 10 + d;
            if w > LIMIT {
                big = true;
            } else {
                v = w;
            }
        }
        i += 1;
    }
    assert(digits.take(i - from) =~= digits);
    if big {
        return None;
    }
    let n = if minus {
        -v
    } else {
        v
    };
    if lo <= n && n <= hi {
        Some(n)
    } else {
        None
    }
}

/// The `i32` that the string stands for.
pub fn parse_i32(s: &Vec<char>) -> (res: Option<i32>)
    ensures
        match res {
            Some(n) => parsed_int(s@, i32::MIN as int, i32::MAX as int) == Some(n as int),
            None => parsed_int(s@, i32::MIN as int, i32::MAX as int) is None,
        },
{
    match parse_int(s, i32::MIN as i128, i32::MAX as i128) {
        Some(n) => Some(n as i32),
        None => None,
    }
}

/// The `u32` that the string stands for.
pub fn parse_u32(s: &Vec<char>) -> (res: Option<u32>)
    ensures
        match res {
            Some(n) => parsed_int(s@, 0, u32::MAX as int) == Some(n as int),
            None => parsed_int(s@, 0, u32::MAX as int) is None,
        },
{
    match parse_int(s, 0, u32::MAX as i128) {
        Some(n) => Some(n as u32),
        None => None,
    }
}

/// The `i64` that the string stands for.
pub fn parse_i64(s: &Vec<char>) -> (res: Option<i64>)
    ensures
        match res {
            Some(n) => parsed_int(s@, i64::MIN as int, i64::MAX as int) == Some(n as int),
            None => parsed_int(s@, i64::MIN as int, i64::MAX as int) is None,
        },
{
    match parse_int(s, i64::MIN as i128, i64::MAX as i128) {
        Some(n) => Some(n as i64),
        None => None,
    }
}

/// The `usize` that the string stands for.
pub fn parse_usize(s: &Vec<char>) -> (res: Option<usize>)
    ensures
        match res {
            Some(n) => parsed_int(s@, 0, usize::MAX as int) == Some(n as int),
            None => parsed_int(s@, 0, usize::MAX as int) is None,
        },
{
    match parse_int(s, 0, usize::MAX as i128) {
        Some(n) => Some(n as usize),
        None => None,
    }
}

/// A text with another character than digits is no number.
pub proof fn lemma_not_digits(s: Seq<char>, k: int)
    requires
        0 <= k < s.len(),
        !is_digit(s[k]),
    ensures
        digits_value(s) is None,
    decreases s.len(),
{
    if k < s.len() - 1 {
        lemma_not_digits(s.drop_last(), k);
    }
}

/// Appends the digits of `n`.
fn push_decimal(out: &mut Vec<char>, n: u128)
    ensures
        final(out)@ == old(out)@ + decimal(n as nat),
    decreases n,
{
    if n >= 10 {
        push_decimal(out, n / 10);
    }
    let d = digit_of((n % 10) as u8);
    let ghost before = out@;
    out.push(d);
    proof {
        if n >= 10 {
            assert(out@ =~= old(out)@ + decimal(n as nat));
        } else {
            assert(out@ =~= old(out)@ + decimal(n as nat));
        }
    }
}

fn digit_of(d: u8) -> (c: char)
    requires
        d < 10,
    ensures
        c == digit_char(d as int),
{
    (48u8 + d) as char
}

/// The decimal text of an unsigned number.
pub fn decimal_u128(n: u128) -> (out: Vec<char>)
    ensures
        out@ == decimal(n as nat),
{
    let mut out: Vec<char> = Vec::new();
    push_decimal(&mut out, n);
    assert(out@ =~= decimal(n as nat));
    out
}

/// The decimal text of a signed number.
pub fn decimal_i64(n: i64) -> (out: Vec<char>)
    ensures
        out@ == decimal_int(n as int),
{
    let mut out: Vec<char> = Vec::new();
    if n < 0 {
        out.push('-');
        let m: u128 = (-(n as i128)) as u128;
        push_decimal(&mut out, m);
        assert(out@ =~= decimal_int(n as int));
    } else {
        push_decimal(&mut out, n as u128);
        assert(out@ =~= decimal_int(n as int));
    }
    out
}

/// The decimal text of an unsigned number, with zeros before it up to `width` characters.
pub fn padded_u128(n: u128, width: usize) -> (out: Vec<char>)
    ensures
        out@ == zero_padded(decimal(n as nat), width as nat),
{
    let digits = decimal_u128(n);
    let mut out: Vec<char> = Vec::new();
    if digits.len() < width {
        let zeros = width - digits.len();
        for i in 0..zeros
            invariant
                out@ == Seq::new(i as nat, |k: int| '0'),
        {
            out.push('0');
            assert(out@ =~= Seq::new((i + 1) as nat, |k: int| '0'));
        }
    }
    let ghost zeros = out@;
    for i in 0..digits.len()
        invariant
            out@ == zeros + digits@.take(i as int),
    {
        out.push(digits[i]);
        assert(out@ =~= zeros + digits@.take(i + 1));
    }
    assert(digits@.take(digits@.len() as int) =~= digits@);
    assert(out@ =~= zero_padded(decimal(n as nat), width as nat));
    out
}

/// Reading the digits of a number gives the number back.
pub proof fn lemma_decimal_value(n: nat)
    ensures
        digits_value(decimal(n)) == Some(n as int),
        decimal(n).len() > 0,
        forall|i: int| 0 <= i < decimal(n).len() ==> is_digit(#[trigger] decimal(n)[i]),
    decreases n,
{
    let d = decimal(n);
    if n < 10 {
        lemma_digit(n as int);
        assert(digits_value(d.drop_last()) == Some(0int));
    } else {
        lemma_decimal_value(n / 10);
        lemma_digit((n % 10) as int);
        assert(d.drop_last() =~= decimal(n / 10));
        assert forall|i: int| 0 <= i < d.len() implies is_digit(#[trigger] d[i]) by {
            if i < d.len() - 1 {
                assert(d[i] == decimal(n / 10)[i]);
            }
        }
    }
}

proof fn lemma_digit(d: int)
    requires
        0 <= d < 10,
    ensures
        is_digit(digit_char(d)),
        digit_value(digit_char(d)) == d,
{
}

/// Zeros before the digits do not change the number.
pub proof fn lemma_padded_value(n: nat, width: nat)
    ensures
        digits_value(zero_padded(decimal(n), width)) == Some(n as int),
        zero_padded(decimal(n), width).len() >= width,
        zero_padded(decimal(n), width).len() > 0,
        decimal(n).len() <= width ==> zero_padded(decimal(n), width).len() == width,
        forall|i: int|
            0 <= i < zero_padded(decimal(n), width).len() ==> is_digit(
                #[trigger] zero_padded(decimal(n), width)[i],
            ),
{
    lemma_decimal_value(n);
    if decimal(n).len() < width {
        let zeros = Seq::new((width - decimal(n).len()) as nat, |i: int| '0');
        lemma_zeros_before(zeros, decimal(n));
    }
}

pub open spec fn pow10(k: nat) -> nat
    decreases k,
{
    if k == 0 {
        1
    } else {
        10 * pow10((k - 1) as nat)
    }
}

/// A number below the `k`-th power of ten has at most `k` digits.
pub proof fn lemma_decimal_len(n: nat, k: nat)
    requires
        n < pow10(k),
        k > 0,
    ensures
        decimal(n).len() <= k,
    decreases k,
{
    if n >= 10 {
        assert(k > 1) by {
            reveal_with_fuel(pow10, 2);
        }
        lemma_decimal_len(n / 10, (k - 1) as nat);
    }
}

proof fn lemma_zeros_before(zeros: Seq<char>, digits: Seq<char>)
    requires
        forall|i: int| 0 <= i < zeros.len() ==> zeros[i] == '0',
    ensures
        digits_value(zeros + digits) == digits_value(digits),
    decreases zeros.len() + digits.len(),
{
    if digits.len() > 0 {
        assert((zeros + digits).drop_last() =~= zeros + digits.drop_last());
        lemma_zeros_before(zeros, digits.drop_last());
    } else if zeros.len() > 0 {
        assert((zeros + digits).drop_last() =~= zeros.drop_last() + digits);
        lemma_zeros_before(zeros.drop_last(), digits);
    } else {
        assert(zeros + digits =~= digits);
    }
}

/// A number read back from its decimal text is the number that was written, in every range that
/// holds it.
pub proof fn law_decimal_round_trip(n: int, lo: int, hi: int)
    requires
        lo <= n <= hi,
    ensures
        parsed_int(decimal_int(n), lo, hi) == Some(n),
{
    let s = decimal_int(n);
    if n < 0 {
        lemma_decimal_value((-n) as nat);
        assert(s.drop_first() =~= decimal((-n) as nat));
    } else {
        lemma_decimal_value(n as nat);
        assert(is_digit(s[0]));
    }
}

} // verus!
