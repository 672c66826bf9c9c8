//! Laws of texts: what stripping, cutting and joining do to them.

use crate::text::CharClass;
use vstd::prelude::*;

verus! {

/// White space are six characters of ASCII, the two of Latin-1, and the spaces and line ends of
/// the later blocks.
pub proof fn law_white_space(c: char)
    ensures
        crate::text::is_white(c) <==> {
            ||| c == '\t' || c == '\n' || c == '\u{b}' || c == '\u{c}' || c == '\r' || c == ' '
            ||| c == '\u{85}' || c == '\u{a0}' || c == '\u{1680}'
            ||| '\u{2000}' <= c <= '\u{200a}'
            ||| c == '\u{2028}' || c == '\u{2029}' || c == '\u{202f}' || c == '\u{205f}'
            ||| c == '\u{3000}'
        },
{
}

/// What the three classes hold.
pub proof fn law_classes(c: char)
    ensures
        CharClass::White.contains(c) <==> crate::text::is_white(c),
        CharClass::Blank.contains(c) <==> c == ' ',
        CharClass::Hash.contains(c) <==> c == '#',
{
}

/// Whether every character of `s` is in `class`.
pub open spec fn all_in(s: Seq<char>, class: CharClass) -> bool {
    forall|i: int| 0 <= i < s.len() ==> class.contains(#[trigger] s[i])
}

/// A text that neither starts nor ends in `class`, between two that are in it, is what is left
/// when the whole is stripped.
pub proof fn law_stripped(a: Seq<char>, t: Seq<char>, b: Seq<char>, class: CharClass)
    requires
        all_in(a, class),
        all_in(b, class),
        t.len() > 0 ==> !class.contains(t[0]) && !class.contains(t.last()),
    ensures
        crate::text::trimmed(a + t + b, class) == t,
{
    let s = a + t + b;
    if t.len() > 0 {
        let n = a.len() as int;
        assert forall|k: int| 0 <= k < n implies class.contains(s[k]) by {
            assert(s[k] == a[k]);
        }
        crate::text::lemma_trim_start(s, class, n);
        let u = s.skip(n);
        assert(u =~= t + b);
        let m = t.len() as int;
        assert forall|k: int| m <= k < u.len() implies class.contains(u[k]) by {
            assert(u[k] == b[k - m]);
        }
        crate::text::lemma_trim_end(u, class, m);
        assert(u.take(m) =~= t);
    } else {
        let n = s.len() as int;
        assert forall|k: int| 0 <= k < n implies class.contains(s[k]) by {
            assert(s[k] == if k < a.len() {
                a[k]
            } else {
                b[k - a.len()]
            });
        }
        crate::text::lemma_trim_start(s, class, n);
        assert(s.skip(n) =~= t);
    }
}

/// What stripping takes away is in the class, at the start and at the end; what is left neither
/// starts nor ends in it.
pub proof fn law_stripping(s: Seq<char>, class: CharClass)
    ensures
        ({
            let t = crate::text::trimmed(s, class);
            &&& exists|a: Seq<char>, b: Seq<char>|
                s == #[trigger] (a + t + b) && all_in(a, class) && all_in(b, class)
            &&& t.len() > 0 ==> !class.contains(t[0]) && !class.contains(t.last())
        }),
{
    law_stripping_start(s, class);
    let u = crate::text::trim_start(s, class);
    let a = choose|a: Seq<char>| s == #[trigger] (a + u) && all_in(a, class);
    lemma_strip_end(u, class);
    let t = crate::text::trim_end(u, class);
    let b = choose|b: Seq<char>| u == #[trigger] (t + b) && all_in(b, class);
    assert(s =~= a + t + b);
    if t.len() > 0 {
        assert(t[0] == u[0]);
    }
}

/// The same of the start alone.
pub proof fn law_stripping_start(s: Seq<char>, class: CharClass)
    ensures
        ({
            let t = crate::text::trim_start(s, class);
            &&& exists|a: Seq<char>| s == #[trigger] (a + t) && all_in(a, class)
            &&& t.len() > 0 ==> !class.contains(t[0])
        }),
    decreases s.len(),
{
    let t = crate::text::trim_start(s, class);
    if s.len() > 0 && class.contains(s[0]) {
        law_stripping_start(s.drop_first(), class);
        let a = choose|a: Seq<char>| s.drop_first() == #[trigger] (a + t) && all_in(a, class);
        let b = seq![s[0]] + a;
        assert(s =~= seq![s[0]] + s.drop_first());
        assert(s =~= b + t);
        assert forall|i: int| 0 <= i < b.len() implies class.contains(#[trigger] b[i]) by {
            if i > 0 {
                assert(b[i] == a[i - 1]);
            }
        }
        assert(all_in(b, class));
    } else {
        assert(s =~= seq![] + t);
        assert(all_in(seq![], class));
    }
}

proof fn lemma_strip_end(s: Seq<char>, class: CharClass)
    ensures
        ({
            let t = crate::text::trim_end(s, class);
            &&& exists|b: Seq<char>| s == #[trigger] (t + b) && all_in(b, class)
            &&& t.len() > 0 ==> !class.contains(t.last())
        }),
    decreases s.len(),
{
    let t = crate::text::trim_end(s, class);
    if s.len() > 0 && class.contains(s.last()) {
        lemma_strip_end(s.drop_last(), class);
        let b = choose|b: Seq<char>| s.drop_last() == #[trigger] (t + b) && all_in(b, class);
        let c = b.push(s.last());
        assert(s =~= s.drop_last().push(s.last()));
        assert(s =~= t + c);
        assert(all_in(c, class));
    } else {
        assert(s =~= t + seq![]);
        assert(all_in(seq![], class));
    }
}

/// A text is blank where it holds nothing but white space.
pub proof fn law_blank(s: Seq<char>)
    ensures
        crate::text::is_blank(s) <==> forall|i: int|
            0 <= i < s.len() ==> crate::text::is_white(#[trigger] s[i]),
{
    let class = CharClass::White;
    if all_in(s, class) {
        law_stripped(s, seq![], seq![], class);
        assert(s + seq![] + seq![] =~= s);
    } else {
        law_stripping(s, class);
        let t = crate::text::trimmed(s, class);
        if t.len() == 0 {
            let (a, b) = choose|a: Seq<char>, b: Seq<char>|
                s == #[trigger] (a + t + b) && all_in(a, class) && all_in(b, class);
            assert forall|i: int| 0 <= i < s.len() implies class.contains(#[trigger] s[i]) by {
                assert(s[i] == if i < a.len() {
                    a[i]
                } else {
                    b[i - a.len()]
                });
            }
        }
    }
}

/// A text without white space is one word.
pub proof fn law_one_word(s: Seq<char>)
    requires
        s.len() > 0,
        forall|i: int| 0 <= i < s.len() ==> !crate::text::is_white(#[trigger] s[i]),
    ensures
        crate::text::words(s) == seq![s],
{
    crate::text::lemma_word_len(s, s.len() as int);
    assert(!crate::text::is_white(s[0]));
    assert(s.take(s.len() as int) =~= s);
    assert(crate::text::words(s.skip(s.len() as int)) =~= seq![]);
    assert(crate::text::words(s) =~= seq![s]);
}

/// The words of two texts with white space between them are the words of the one, then those of
/// the other. There are none in the empty text.
pub proof fn law_words_meet(a: Seq<char>, w: char, b: Seq<char>)
    requires
        crate::text::is_white(w),
    ensures
        crate::text::words(a + seq![w] + b) == crate::text::words(a) + crate::text::words(b),
        crate::text::words(seq![]) == Seq::<Seq<char>>::empty(),
    decreases a.len(),
{
    let s = a + seq![w] + b;
    if a.len() == 0 {
        assert(s[0] == w);
        assert(s.drop_first() =~= b);
        assert(crate::text::words(a) + crate::text::words(b) =~= crate::text::words(b));
    } else if crate::text::is_white(a[0]) {
        law_words_meet(a.drop_first(), w, b);
        assert(s[0] == a[0]);
        assert(s.drop_first() =~= a.drop_first() + seq![w] + b);
    } else {
        crate::text::lemma_word_len_bound(a);
        let n = crate::text::word_len(a);
        lemma_word_end(a);
        assert(s[0] == a[0]);
        assert forall|k: int| 0 <= k < n implies !crate::text::is_white(s[k]) by {
            assert(s[k] == a[k]);
        }
        assert(s[n] == if n < a.len() {
            a[n]
        } else {
            w
        });
        crate::text::lemma_word_len(s, n);
        assert(s.take(n) =~= a.take(n));
        assert(s.skip(n) =~= a.skip(n) + seq![w] + b);
        law_words_meet(a.skip(n), w, b);
        assert(crate::text::words(s) =~= crate::text::words(a) + crate::text::words(b));
    }
}

proof fn lemma_word_end(s: Seq<char>)
    ensures
        ({
            let n = crate::text::word_len(s);
            &&& 0 <= n <= s.len()
            &&& forall|k: int| 0 <= k < n ==> !crate::text::is_white(#[trigger] s[k])
            &&& n < s.len() ==> crate::text::is_white(s[n])
        }),
    decreases s.len(),
{
    if s.len() > 0 && !crate::text::is_white(s[0]) {
        let t = s.drop_first();
        lemma_word_end(t);
        let n = crate::text::word_len(s);
        assert forall|k: int| 0 <= k < n implies !crate::text::is_white(#[trigger] s[k]) by {
            if k > 0 {
                assert(s[k] == t[k - 1]);
            }
        }
    }
}

/// A text without the separator is one part.
pub proof fn law_one_part(s: Seq<char>, sep: char)
    requires
        !s.contains(sep),
    ensures
        crate::text::split_on(s, sep) == seq![s],
    decreases s.len(),
{
    if s.len() > 0 {
        let t = s.drop_last();
        assert(!t.contains(sep)) by {
            if t.contains(sep) {
                let k = choose|k: int| 0 <= k < t.len() && t[k] == sep;
                assert(s[k] == sep);
            }
        }
        law_one_part(t, sep);
        assert(s.contains(s[s.len() - 1]));
        assert(s =~= t.push(s.last()));
        assert(crate::text::split_on(s, sep) =~= seq![s]);
    } else {
        assert(s =~= seq![]);
    }
}

/// The parts of two texts with a separator between them are the parts of the one, then those of
/// the other.
pub proof fn law_parts_meet(a: Seq<char>, sep: char, b: Seq<char>)
    ensures
        crate::text::split_on(a + seq![sep] + b, sep) == crate::text::split_on(a, sep)
            + crate::text::split_on(b, sep),
    decreases b.len(),
{
    let s = a + seq![sep] + b;
    let x = crate::text::split_on(a, sep);
    if b.len() == 0 {
        assert(s.drop_last() =~= a);
        assert(crate::text::split_on(s, sep) =~= x + crate::text::split_on(b, sep));
    } else {
        let t = b.drop_last();
        law_parts_meet(a, sep, t);
        lemma_some_part(t, sep);
        let y = crate::text::split_on(t, sep);
        assert(s.drop_last() =~= a + seq![sep] + t);
        assert(s.last() == b.last());
        assert((x + y).last() == y.last());
        assert((x + y).drop_last() =~= x + y.drop_last());
        assert(crate::text::split_on(s, sep) =~= x + crate::text::split_on(b, sep));
    }
}

proof fn lemma_some_part(s: Seq<char>, sep: char)
    ensures
        crate::text::split_on(s, sep).len() > 0,
    decreases s.len(),
{
    if s.len() > 0 {
        lemma_some_part(s.drop_last(), sep);
    }
}

/// Cutting at a character undoes joining with it.
pub proof fn law_cut_joined(parts: Seq<Seq<char>>, sep: char)
    requires
        parts.len() > 0,
        forall|i: int| 0 <= i < parts.len() ==> !(#[trigger] parts[i]).contains(sep),
    ensures
        crate::text::split_on(crate::text::joined(parts, seq![sep]), sep) == parts,
    decreases parts.len(),
{
    let last = parts[parts.len() - 1];
    assert(!last.contains(sep));
    law_one_part(last, sep);
    if parts.len() == 1 {
        assert(parts =~= seq![last]);
    } else {
        let head = parts.drop_last();
        assert forall|i: int| 0 <= i < head.len() implies !(#[trigger] head[i]).contains(sep) by {
            assert(head[i] == parts[i]);
        }
        law_cut_joined(head, sep);
        law_parts_meet(crate::text::joined(head, seq![sep]), sep, last);
        assert(head + seq![last] =~= parts);
    }
}

/// What is joined has the parts in their order and the separator between neighbours: the parts
/// of two lists, one after the other, join to the two joined texts with the separator between.
pub proof fn law_join_meets(a: Seq<Seq<char>>, b: Seq<Seq<char>>, sep: Seq<char>)
    requires
        a.len() > 0,
        b.len() > 0,
    ensures
        crate::text::joined(a + b, sep) == crate::text::joined(a, sep) + sep
            + crate::text::joined(b, sep),
        crate::text::joined(seq![], sep) == Seq::<char>::empty(),
        a.len() == 1 ==> crate::text::joined(a, sep) == a[0],
    decreases b.len(),
{
    let last = b.last();
    if b.len() == 1 {
        assert((a + b).drop_last() =~= a);
    } else {
        law_join_meets(a, b.drop_last(), sep);
        assert((a + b).drop_last() =~= a + b.drop_last());
    }
    assert((a + b).last() == last);
    assert(crate::text::joined(a + b, sep) =~= crate::text::joined(a, sep) + sep
        + crate::text::joined(b, sep));
}

/// A text occurs in another where the other can be split into something, the text, and something.
pub proof fn law_occurs(hay: Seq<char>, needle: Seq<char>)
    ensures
        crate::text::occurs(hay, needle) <==> exists|a: Seq<char>, b: Seq<char>|
            hay == #[trigger] (a + needle + b),
{
    if crate::text::occurs(hay, needle) {
        let i = choose|i: int| crate::text::occurs_at(hay, needle, i);
        let a = hay.take(i);
        let b = hay.skip(i + needle.len());
        assert(a + needle + b =~= hay) by {
            assert forall|k: int| 0 <= k < hay.len() implies (a + needle + b)[k] == hay[k] by {
                if i <= k < i + needle.len() {
                    assert(hay.subrange(i, i + needle.len())[k - i] == hay[k]);
                }
            }
        }
    }
    if exists|a: Seq<char>, b: Seq<char>| hay == #[trigger] (a + needle + b) {
        let (a, b) = choose|a: Seq<char>, b: Seq<char>| hay == #[trigger] (a + needle + b);
        lemma_part_occurs(hay, a, needle, b);
    }
}

/// A text occurs at a place where the other has the same characters from there on.
pub proof fn law_occurs_at(hay: Seq<char>, needle: Seq<char>, i: int)
    ensures
        crate::text::occurs_at(hay, needle, i) <==> {
            &&& 0 <= i <= hay.len() - needle.len()
            &&& forall|k: int| 0 <= k < needle.len() ==> hay[i + k] == #[trigger] needle[k]
        },
{
    if 0 <= i <= hay.len() - needle.len() {
        let part = hay.subrange(i, i + needle.len());
        if forall|k: int| 0 <= k < needle.len() ==> hay[i + k] == #[trigger] needle[k] {
            assert(part =~= needle);
        }
        if part == needle {
            assert forall|k: int| 0 <= k < needle.len() implies hay[i + k]
                == #[trigger] needle[k] by {
                assert(part[k] == hay[i + k]);
            }
        }
    }
}

/// A part of a text occurs in it where it stands.
pub proof fn lemma_part_occurs(hay: Seq<char>, a: Seq<char>, needle: Seq<char>, b: Seq<char>)
    requires
        hay == a + needle + b,
    ensures
        crate::text::occurs_at(hay, needle, a.len() as int),
        crate::text::occurs(hay, needle),
{
    assert(hay.subrange(a.len() as int, a.len() as int + needle.len()) =~= needle);
    assert(crate::text::occurs_at(hay, needle, a.len() as int));
}

/// What is no part of a text does not occur in it.
pub proof fn lemma_no_part(hay: Seq<char>, needle: Seq<char>)
    requires
        forall|a: Seq<char>, b: Seq<char>| hay != #[trigger] (a + needle + b),
    ensures
        !crate::text::occurs(hay, needle),
{
    law_occurs(hay, needle);
}

/// Of two texts that first differ in one character, the one with the lower code point comes
/// first; a text comes before its continuations.
pub proof fn law_text_order(p: Seq<char>, x: char, y: char, a: Seq<char>, b: Seq<char>)
    requires
        (x as u32) < (y as u32),
    ensures
        crate::text::text_before(p + seq![x] + a, p + seq![y] + b),
        !crate::text::text_before(p + seq![y] + b, p + seq![x] + a),
        crate::text::text_before(p, p + seq![x] + a),
        !crate::text::text_before(p + seq![x] + a, p),
    decreases p.len(),
{
    let s = p + seq![x] + a;
    let t = p + seq![y] + b;
    if p.len() == 0 {
        assert(s[0] == x && t[0] == y);
    } else {
        law_text_order(p.drop_first(), x, y, a, b);
        assert(s.drop_first() =~= p.drop_first() + seq![x] + a);
        assert(t.drop_first() =~= p.drop_first() + seq![y] + b);
        assert(s[0] == p[0] && t[0] == p[0]);
    }
}

/// The upper-case letters of ASCII have their lower-case ones 32 code points above them; every
/// other character is left as it is.
pub proof fn law_ascii_lower(c: char)
    ensures
        0x41 <= c as u32 <= 0x5a ==> crate::unicode::ascii_lower(c) as u32 == c as u32 + 32,
        !(0x41 <= c as u32 <= 0x5a) ==> crate::unicode::ascii_lower(c) == c,
{
}

/// The bytes of a hexadecimal text are its pairs of digits, the high one first.
pub proof fn law_hexadecimal(bytes: Seq<u8>, i: int)
    requires
        0 <= i < bytes.len(),
    ensures
        ({
            let h = crate::digest::hex_text(bytes);
            let value = |c: char|
                if '0' <= c <= '9' {
                    c as int - '0' as int
                } else {
                    c as int - 'a' as int + 10
                };
            &&& h.len() == 2 * bytes.len()
            &&& forall|k: int|
                0 <= k < h.len() ==> '0' <= #[trigger] h[k] <= '9' || 'a' <= h[k] <= 'f'
            &&& value(h[2 * i]) * 16 + value(h[2 * i + 1]) == bytes[i]
        }),
{
    let h = crate::digest::hex_text(bytes);
    assert forall|k: int| 0 <= k < h.len() implies '0' <= #[trigger] h[k] <= '9' || 'a' <= h[k]
        <= 'f' by {
        let b: u8 = bytes[k / 2];
        lemma_nibble(b as int / 16);
        lemma_nibble(b as int % 16);
    }
    let b: u8 = bytes[i];
    assert((2 * i) / 2 == i && (2 * i + 1) / 2 == i);
    lemma_nibble(b as int / 16);
    lemma_nibble(b as int % 16);
}

proof fn lemma_nibble(d: int)
    requires
        0 <= d < 16,
    ensures
        ({
            let c = crate::digest::nibble_char(d);
            &&& '0' <= c <= '9' || 'a' <= c <= 'f'
            &&& d == if '0' <= c <= '9' {
                c as int - '0' as int
            } else {
                c as int - 'a' as int + 10
            }
        }),
{
}

} // verus!
