//! Laws of patterns: what each character of a pattern stands for, and how the parts of a pattern
//! match the parts of a text.

use crate::like::sql_like_chars;
use vstd::prelude::*;

verus! {

/// The empty pattern matches the empty text, `_` any one character, `%` any text, and another
/// character itself.
pub proof fn law_pattern_chars(c: char, s: Seq<char>)
    ensures
        crate::like::like(seq![], s, None) <==> s.len() == 0,
        crate::like::like(seq!['_'], s, None) <==> s.len() == 1,
        crate::like::like(seq!['%'], s, None),
        c != '_' && c != '%' ==> (crate::like::like(seq![c], s, None) <==> s.len() == 1
            && crate::laws::lists::alike(c, s[0])),
{
    crate::like::lemma_any(s, None);
    reveal_with_fuel(crate::like::like, 2);
    assert(seq!['_'].drop_first() =~= seq![]);
    assert(seq![c].drop_first() =~= seq![]);
    if s.len() > 0 {
        crate::laws::lists::law_folded(c, s[0]);
        assert(crate::like::like(seq![], s.drop_first(), None) <==> s.len() == 1);
    }
}

/// Behind the escape character every character stands for itself.
pub proof fn law_escaped_char(esc: char, c: char, s: Seq<char>)
    ensures
        crate::like::like(seq![esc, c], s, Some(esc)) <==> s.len() == 1 && crate::laws::lists::alike(
            c,
            s[0],
        ),
{
    let p = seq![esc, c];
    assert(p.skip(2) =~= seq![]);
    if s.len() > 0 {
        crate::laws::lists::law_folded(c, s[0]);
        assert(crate::like::like(p.skip(2), s.drop_first(), Some(esc)) <==> s.len() == 1);
    }
}

/// Two patterns, one behind the other, match a text that can be cut in two parts of which the
/// first matches the one and the second the other.
pub proof fn law_patterns_meet(p: Seq<char>, q: Seq<char>, s: Seq<char>)
    ensures
        crate::like::like(p + q, s, None) <==> exists|i: int|
            0 <= i <= s.len() && crate::like::like(p, #[trigger] s.take(i), None)
                && crate::like::like(q, s.skip(i), None),
    decreases p.len(), s.len(),
{
    let r = p + q;
    assert(s.take(0) =~= seq![]);
    assert(s.skip(0) =~= s);
    if p.len() == 0 {
        assert(r =~= q);
        if crate::like::like(q, s, None) {
            assert(crate::like::like(p, s.take(0), None));
        }
        if exists|i: int|
            0 <= i <= s.len() && crate::like::like(p, #[trigger] s.take(i), None)
                && crate::like::like(q, s.skip(i), None) {
            let i = choose|i: int|
                0 <= i <= s.len() && crate::like::like(p, #[trigger] s.take(i), None)
                    && crate::like::like(q, s.skip(i), None);
            assert(i == 0);
        }
    } else {
        let rest = p.drop_first();
        assert(r.drop_first() =~= rest + q);
        let t = s.drop_first();
        if p[0] == '%' {
            law_patterns_meet(rest, q, s);
            if s.len() > 0 {
                law_patterns_meet(p, q, t);
            }
            if crate::like::like(r, s, None) {
                if crate::like::like(rest + q, s, None) {
                    let i = choose|i: int|
                        0 <= i <= s.len() && crate::like::like(rest, #[trigger] s.take(i), None)
                            && crate::like::like(q, s.skip(i), None);
                    assert(crate::like::like(p, s.take(i), None));
                } else {
                    let i = choose|i: int|
                        0 <= i <= t.len() && crate::like::like(p, #[trigger] t.take(i), None)
                            && crate::like::like(q, t.skip(i), None);
                    assert(s.take(i + 1).drop_first() =~= t.take(i));
                    assert(s.skip(i + 1) =~= t.skip(i));
                    assert(crate::like::like(p, s.take(i + 1), None));
                }
            }
            if exists|i: int|
                0 <= i <= s.len() && crate::like::like(p, #[trigger] s.take(i), None)
                    && crate::like::like(q, s.skip(i), None) {
                let i = choose|i: int|
                    0 <= i <= s.len() && crate::like::like(p, #[trigger] s.take(i), None)
                        && crate::like::like(q, s.skip(i), None);
                if !crate::like::like(rest, s.take(i), None) {
                    assert(s.take(i).drop_first() =~= t.take(i - 1));
                    assert(s.skip(i) =~= t.skip(i - 1));
                }
            }
        } else {
            if s.len() > 0 {
                law_patterns_meet(rest, q, t);
            }
            if crate::like::like(r, s, None) {
                let i = choose|i: int|
                    0 <= i <= t.len() && crate::like::like(rest, #[trigger] t.take(i), None)
                        && crate::like::like(q, t.skip(i), None);
                assert(s.take(i + 1).drop_first() =~= t.take(i));
                assert(s.skip(i + 1) =~= t.skip(i));
                assert(crate::like::like(p, s.take(i + 1), None));
            }
            if exists|i: int|
                0 <= i <= s.len() && crate::like::like(p, #[trigger] s.take(i), None)
                    && crate::like::like(q, s.skip(i), None) {
                let i = choose|i: int|
                    0 <= i <= s.len() && crate::like::like(p, #[trigger] s.take(i), None)
                        && crate::like::like(q, s.skip(i), None);
                assert(s.take(i).drop_first() =~= t.take(i - 1));
                assert(s.skip(i) =~= t.skip(i - 1));
            }
        }
    }
}

/// Whether a text has no character that a pattern treats specially.
pub open spec fn is_literal(t: Seq<char>) -> bool {
    !t.contains('%') && !t.contains('_') && !t.contains('\0')
}

proof fn lemma_literal_start(t: Seq<char>, s: Seq<char>)
    requires
        is_literal(t),
    ensures
        crate::like::like(t + seq!['%'], s, None) <==> crate::laws::lists::reads_at(s, t, 0),
    decreases t.len(),
{
    let p = t + seq!['%'];
    if t.len() == 0 {
        assert(p =~= seq!['%']);
        crate::like::lemma_any(s, None);
    } else {
        let rest = t.drop_first();
        assert(p.drop_first() =~= rest + seq!['%']);
        assert(t.contains(t[0]));
        assert(is_literal(rest)) by {
            assert forall|c: char| rest.contains(c) implies t.contains(c) by {
                let k = choose|k: int| 0 <= k < rest.len() && rest[k] == c;
                assert(t[k + 1] == c);
            }
        }
        if s.len() > 0 {
            let u = s.drop_first();
            lemma_literal_start(rest, u);
            crate::laws::lists::law_folded(s[0], t[0]);
            if crate::laws::lists::reads_at(s, t, 0) {
                assert(crate::laws::lists::alike(s[0], t[0]));
                assert forall|i: int| 0 <= i < rest.len() implies crate::laws::lists::alike(
                    u[0 + i],
                    #[trigger] rest[i],
                ) by {
                    assert(crate::laws::lists::alike(s[0 + (i + 1)], t[i + 1]));
                }
                assert(crate::laws::lists::reads_at(u, rest, 0));
            }
            if crate::laws::lists::reads_at(u, rest, 0) && crate::laws::lists::alike(s[0], t[0]) {
                assert forall|i: int| 0 <= i < t.len() implies crate::laws::lists::alike(
                    s[0 + i],
                    #[trigger] t[i],
                ) by {
                    if i > 0 {
                        assert(crate::laws::lists::alike(u[0 + (i - 1)], rest[i - 1]));
                    }
                }
            }
        }
    }
}

/// A text without special characters, between two `%`, is found in every text that has it in it
/// and in no other, with the letters of ASCII in either case.
pub proof fn law_part_found(p: &Vec<char>, t: Seq<char>, s: &Vec<char>, res: bool)
    requires
        call_ensures(sql_like_chars, (p, s, None), res),
        is_literal(t),
        p@ == seq!['%'] + t + seq!['%'],
    ensures
        res <==> exists|k: int| #[trigger]
            crate::laws::lists::reads_at(crate::like::c_str(s@), t, k),
{
    lemma_part_found(t, s@);
}

/// The same of the value of such a pattern in a query.
pub proof fn lemma_part_found(t: Seq<char>, s: Seq<char>)
    requires
        is_literal(t),
    ensures
        crate::like::sql_like(seq!['%'] + t + seq!['%'], s, None) <==> exists|k: int| #[trigger]
            crate::laws::lists::reads_at(crate::like::c_str(s), t, k),
{
    let p = seq!['%'] + t + seq!['%'];
    assert(!p.contains('\0')) by {
        if p.contains('\0') {
            let k = choose|k: int| 0 <= k < p.len() && p[k] == '\0';
            assert(t[k - 1] == '\0');
        }
    }
    crate::like::lemma_c_str_whole(p);
    let u = crate::like::c_str(s);
    let end = t + seq!['%'];
    assert(p =~= seq!['%'] + end);
    crate::like::lemma_suffix(end, u, None);
    if exists|i: int| 0 <= i <= u.len() && crate::like::like(end, #[trigger] u.skip(i), None) {
        let i = choose|i: int|
            0 <= i <= u.len() && crate::like::like(end, #[trigger] u.skip(i), None);
        lemma_literal_start(t, u.skip(i));
        lemma_reads_shift(u, t, i);
    }
    if exists|k: int| #[trigger] crate::laws::lists::reads_at(u, t, k) {
        let k = choose|k: int| #[trigger] crate::laws::lists::reads_at(u, t, k);
        lemma_reads_shift(u, t, k);
        lemma_literal_start(t, u.skip(k));
    }
}

proof fn lemma_reads_shift(u: Seq<char>, t: Seq<char>, k: int)
    requires
        0 <= k <= u.len(),
    ensures
        crate::laws::lists::reads_at(u.skip(k), t, 0) <==> crate::laws::lists::reads_at(u, t, k),
{
    let v = u.skip(k);
    if crate::laws::lists::reads_at(v, t, 0) {
        assert forall|i: int| 0 <= i < t.len() implies crate::laws::lists::alike(
            u[k + i],
            #[trigger] t[i],
        ) by {
            assert(crate::laws::lists::alike(v[0 + i], t[i]));
        }
    }
    if crate::laws::lists::reads_at(u, t, k) {
        assert forall|i: int| 0 <= i < t.len() implies crate::laws::lists::alike(
            v[0 + i],
            #[trigger] t[i],
        ) by {
            assert(crate::laws::lists::alike(u[k + i], t[i]));
        }
    }
}

} // verus!
