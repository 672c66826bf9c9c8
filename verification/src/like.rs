//! SQLite's `LIKE`: `%` stands for any run of characters and `_` for any one character; ASCII
//! letters match in either case; a text ends at its first NUL character.

use crate::unicode::to_ascii_lower;
use vstd::prelude::*;

verus! {

/// What two characters are compared by: ASCII letters in lower case, and the two noncharacters
/// U+FFFE and U+FFFF read as U+FFFD.
pub open spec fn folded(c: char) -> char {
    if c == '\u{fffe}' || c == '\u{ffff}' {
        '\u{fffd}'
    } else {
        crate::unicode::ascii_lower(c)
    }
}

fn fold(c: char) -> (res: char)
    ensures
        res == folded(c),
{
    if c == '\u{fffe}' || c == '\u{ffff}' {
        '\u{fffd}'
    } else {
        to_ascii_lower(c)
    }
}

/// Whether the text `s` matches the pattern `p`; a character behind `esc` stands for itself.
pub open spec fn like(p: Seq<char>, s: Seq<char>, esc: Option<char>) -> bool
    decreases p.len(), s.len(),
{
    if p.len() == 0 {
        s.len() == 0
    } else if esc == Some(p[0]) {
        p.len() > 1 && s.len() > 0 && folded(p[1]) == folded(s[0]) && like(
            p.skip(2),
            s.drop_first(),
            esc,
        )
    } else if p[0] == '%' {
        like(p.drop_first(), s, esc) || (s.len() > 0 && like(p, s.drop_first(), esc))
    } else {
        s.len() > 0 && (p[0] == '_' || folded(p[0]) == folded(s[0])) && like(
            p.drop_first(),
            s.drop_first(),
            esc,
        )
    }
}

/// The part of `s` before its first NUL character.
pub open spec fn c_str(s: Seq<char>) -> Seq<char>
    decreases s.len(),
{
    if s.len() == 0 || s[0] == '\0' {
        seq![]
    } else {
        seq![s[0]] + c_str(s.drop_first())
    }
}

/// The value of `s LIKE p` in a query, with an `ESCAPE` clause where `esc` is given.
pub open spec fn sql_like(p: Seq<char>, s: Seq<char>, esc: Option<char>) -> bool {
    like(c_str(p), c_str(s), esc)
}

proof fn lemma_c_str(s: Seq<char>, n: int)
    requires
        0 <= n <= s.len(),
        forall|k: int| 0 <= k < n ==> s[k] != '\0',
        n < s.len() ==> s[n] == '\0',
    ensures
        c_str(s) == s.take(n),
    decreases n,
{
    if n > 0 {
        lemma_c_str(s.drop_first(), n - 1);
        assert(s.take(n) =~= seq![s[0]] + s.drop_first().take(n - 1));
    } else {
        assert(s.take(0) =~= seq![]);
    }
}

/// A text without NUL characters is not cut.
pub proof fn lemma_c_str_whole(s: Seq<char>)
    requires
        !s.contains('\0'),
    ensures
        c_str(s) == s,
{
    lemma_c_str(s, s.len() as int);
    assert(s.take(s.len() as int) =~= s);
}

/// The part of `s` before its first NUL character.
pub fn cut_at_nul(s: &Vec<char>) -> (out: Vec<char>)
    ensures
        out@ == c_str(s@),
{
    let mut n: usize = 0;
    while n < s.len() && s[n] != '\0'
        invariant
            n <= s@.len(),
            forall|k: int| 0 <= k < n ==> s@[k] != '\0',
        decreases s@.len() - n,
    {
        n += 1;
    }
    proof {
        lemma_c_str(s@, n as int);
    }
    let out = crate::text::copy_range(s, 0, n);
    assert(out@ =~= s@.take(n as int));
    out
}

/// One row of the match table: for every suffix of `s` from index `j`, whether it matches the
/// suffix of `p` from index `i`.
spec fn is_row(row: Seq<bool>, p: Seq<char>, s: Seq<char>, esc: Option<char>, i: int) -> bool {
    &&& row.len() == s.len() + 1
    &&& forall|j: int| 0 <= j <= s.len() ==> #[trigger] row[j] == like(p.skip(i), s.skip(j), esc)
}

proof fn lemma_cell(p: Seq<char>, s: Seq<char>, esc: Option<char>, i: int, j: int)
    requires
        0 <= i < p.len(),
        0 <= j <= s.len(),
    ensures
        like(p.skip(i), s.skip(j), esc) == (if esc == Some(p[i]) {
            i + 1 < p.len() && j < s.len() && folded(p[i + 1]) == folded(s[j]) && like(
                p.skip(i + 2),
                s.skip(j + 1),
                esc,
            )
        } else if p[i] == '%' {
            like(p.skip(i + 1), s.skip(j), esc) || (j < s.len() && like(
                p.skip(i),
                s.skip(j + 1),
                esc,
            ))
        } else {
            j < s.len() && (p[i] == '_' || folded(p[i]) == folded(s[j])) && like(
                p.skip(i + 1),
                s.skip(j + 1),
                esc,
            )
        }),
{
    let q = p.skip(i);
    let t = s.skip(j);
    assert(q.drop_first() =~= p.skip(i + 1));
    if i + 1 < p.len() {
        assert(q.skip(2) =~= p.skip(i + 2));
    }
    if j < s.len() {
        assert(t.drop_first() =~= s.skip(j + 1));
    }
}

/// Decides `s LIKE p`.
pub fn sql_like_chars(p: &Vec<char>, s: &Vec<char>, esc: Option<char>) -> (res: bool)
    ensures
        res == sql_like(p@, s@, esc),
{
    let p = cut_at_nul(p);
    let s = cut_at_nul(s);
    let n = s.len();
    // The row of the empty pattern, which matches the empty text alone.
    let mut next: Vec<bool> = Vec::new();
    let mut j: usize = 0;
    while j < n
        invariant
            j <= n,
            next@.len() == j,
            forall|k: int| 0 <= k < j ==> !#[trigger] next@[k],
        decreases n - j,
    {
        next.push(false);
        j += 1;
    }
    next.push(true);
    let mut after: Vec<bool> = Vec::new();
    let mut i: usize = p.len();
    assert(p@.skip(i as int).len() == 0);
    while i > 0
        invariant
            i <= p@.len(),
            n == s@.len(),
            is_row(next@, p@, s@, esc, i as int),
            i < p@.len() ==> is_row(after@, p@, s@, esc, i + 1),
        decreases i,
    {
        i -= 1;
        let c = p[i];
        // The cells of this row, from the last one to the first.
        let mut rev: Vec<bool> = Vec::new();
        let mut below = false;
        let mut j: usize = next.len();
        while j > 0
            invariant
                i < p@.len(),
                n == s@.len(),
                n + 1 <= usize::MAX,
                j <= n + 1,
                c == p@[i as int],
                is_row(next@, p@, s@, esc, i + 1),
                i + 1 < p@.len() ==> is_row(after@, p@, s@, esc, i + 2),
                rev@.len() == n + 1 - j,
                forall|k: int|
                    j <= k <= n ==> #[trigger] rev@[n - k] == like(
                        p@.skip(i as int),
                        s@.skip(k),
                        esc,
                    ),
                j <= n ==> below == like(p@.skip(i as int), s@.skip(j as int), esc),
            decreases j,
        {
            j -= 1;
            proof {
                lemma_cell(p@, s@, esc, i as int, j as int);
            }
            let escaped = match esc {
                Some(e) => e == c,
                None => false,
            };
            let cell = if escaped {
                i < p.len() - 1 && j < n && fold(p[i + 1]) == fold(s[j]) && after[j + 1]
            } else if c == '%' {
                next[j] || (j < n && below)
            } else {
                j < n && (c == '_' || fold(c) == fold(s[j])) && next[j + 1]
            };
            rev.push(cell);
            below = cell;
        }
        let mut row: Vec<bool> = Vec::new();
        let mut k: usize = 0;
        while k <= n
            invariant
                k <= n + 1,
                n + 1 <= usize::MAX,
                rev@.len() == n + 1,
                row@.len() == k,
                forall|m: int| 0 <= m < k ==> #[trigger] row@[m] == rev@[n - m],
            decreases n + 1 - k,
        {
            row.push(rev[n - k]);
            k += 1;
        }
        after = next;
        next = row;
    }
    assert(p@.skip(0) =~= p@);
    assert(s@.skip(0) =~= s@);
    next[0]
}

/// `q` with the escape character `\` before every character that `LIKE` treats specially.
pub open spec fn escaped(q: Seq<char>) -> Seq<char>
    decreases q.len(),
{
    if q.len() == 0 {
        seq![]
    } else {
        escaped(q.drop_last()) + (if q.last() == '\\' || q.last() == '%' || q.last() == '_' {
            seq!['\\', q.last()]
        } else {
            seq![q.last()]
        })
    }
}

/// The pattern for texts that contain `q` itself.
pub open spec fn containing(q: Seq<char>) -> Seq<char> {
    seq!['%'] + escaped(q) + seq!['%']
}

/// Writes the pattern for texts that contain `q` itself; its escape character is `\`.
pub fn containing_pattern(q: &Vec<char>) -> (out: Vec<char>)
    ensures
        out@ == containing(q@),
{
    let mut out: Vec<char> = Vec::new();
    out.push('%');
    assert(q@.take(0) =~= seq![]);
    assert(out@ =~= seq!['%'] + escaped(q@.take(0)));
    for i in 0..q.len()
        invariant
            out@ == seq!['%'] + escaped(q@.take(i as int)),
    {
        let c = q[i];
        if c == '\\' || c == '%' || c == '_' {
            out.push('\\');
        }
        out.push(c);
        assert(q@.take(i + 1).drop_last() =~= q@.take(i as int));
        assert(out@ =~= seq!['%'] + escaped(q@.take(i + 1)));
    }
    assert(q@.take(q@.len() as int) =~= q@);
    out.push('%');
    assert(out@ =~= containing(q@));
    out
}

/// `s` with every character folded as `LIKE` compares it.
pub open spec fn folded_text(s: Seq<char>) -> Seq<char> {
    s.map_values(|c: char| folded(c))
}

/// A pattern that is `%` alone matches every text.
pub proof fn lemma_any(s: Seq<char>, esc: Option<char>)
    requires
        esc != Some('%'),
    ensures
        like(seq!['%'], s, esc),
    decreases s.len(),
{
    let p = seq!['%'];
    assert(p.drop_first() =~= seq![]);
    if s.len() > 0 {
        lemma_any(s.drop_first(), esc);
    } else {
        assert(like(p.drop_first(), s, esc));
    }
}

/// A pattern behind `%` matches where some suffix of the text matches it.
pub proof fn lemma_suffix(p: Seq<char>, s: Seq<char>, esc: Option<char>)
    requires
        esc != Some('%'),
    ensures
        like(seq!['%'] + p, s, esc) <==> exists|i: int|
            0 <= i <= s.len() && like(p, #[trigger] s.skip(i), esc),
    decreases s.len(),
{
    let q = seq!['%'] + p;
    assert(q.drop_first() =~= p);
    assert(s.skip(0) =~= s);
    if s.len() > 0 {
        lemma_suffix(p, s.drop_first(), esc);
        if like(q, s.drop_first(), esc) {
            let i = choose|i: int|
                0 <= i <= s.len() - 1 && like(p, #[trigger] s.drop_first().skip(i), esc);
            assert(s.drop_first().skip(i) =~= s.skip(i + 1));
        }
        if exists|i: int| 0 <= i <= s.len() && like(p, #[trigger] s.skip(i), esc) {
            let i = choose|i: int| 0 <= i <= s.len() && like(p, #[trigger] s.skip(i), esc);
            if i > 0 {
                assert(s.drop_first().skip(i - 1) =~= s.skip(i));
            }
        }
    }
}

/// An escaped text at the start of a pattern matches the same text, folded, and the rest of the
/// pattern the rest of the text.
proof fn lemma_literal(q: Seq<char>, rest: Seq<char>, s: Seq<char>)
    ensures
        like(escaped(q) + rest, s, Some('\\')) <==> {
            &&& q.len() <= s.len()
            &&& folded_text(s.take(q.len() as int)) == folded_text(q)
            &&& like(rest, s.skip(q.len() as int), Some('\\'))
        },
    decreases q.len(),
{
    let esc = Some('\\');
    if q.len() == 0 {
        assert(escaped(q) + rest =~= rest);
        assert(s.skip(0) =~= s);
        assert(folded_text(s.take(0)) =~= folded_text(q));
    } else {
        let c = q.last();
        let head = q.drop_last();
        let n = head.len() as int;
        let lit = if c == '\\' || c == '%' || c == '_' {
            seq!['\\', c]
        } else {
            seq![c]
        };
        assert(escaped(q) + rest =~= escaped(head) + (lit + rest));
        lemma_literal(head, lit + rest, s);
        if n <= s.len() {
            let t = s.skip(n);
            let p = lit + rest;
            if lit.len() == 2 {
                assert(p.skip(2) =~= rest);
            } else {
                assert(p.drop_first() =~= rest);
            }
            if t.len() > 0 {
                assert(t.drop_first() =~= s.skip(n + 1));
                assert(t[0] == s[n]);
                assert(like(p, t, esc) <==> folded(c) == folded(s[n]) && like(
                    rest,
                    s.skip(n + 1),
                    esc,
                ));
                let a = folded_text(s.take(n + 1));
                let b = folded_text(q);
                assert(a.take(n) =~= folded_text(s.take(n)));
                assert(b.take(n) =~= folded_text(head));
                assert(a[n] == folded(s[n]) && b[n] == folded(c));
                if folded_text(s.take(n)) == folded_text(head) && folded(c) == folded(s[n]) {
                    assert forall|k: int| 0 <= k < n + 1 implies a[k] == b[k] by {
                        if k < n {
                            assert(a.take(n)[k] == b.take(n)[k]);
                        }
                    }
                    assert(a =~= b);
                }
            }
        }
    }
}

/// A short query finds exactly the texts that contain it, with ASCII letters in either case.
pub proof fn law_containing(q: Seq<char>, s: Seq<char>)
    requires
        !q.contains('\0'),
    ensures
        sql_like(containing(q), s, Some('\\')) <==> crate::text::occurs(
            folded_text(c_str(s)),
            folded_text(q),
        ),
{
    let t = c_str(s);
    let esc = Some('\\');
    lemma_escaped_keeps_nul(q);
    let pat = containing(q);
    assert(!pat.contains('\0')) by {
        if pat.contains('\0') {
            let k = choose|k: int| 0 <= k < pat.len() && pat[k] == '\0';
            if 0 < k < pat.len() - 1 {
                assert(escaped(q)[k - 1] == '\0');
            }
        }
    }
    lemma_c_str_whole(pat);
    let p = escaped(q) + seq!['%'];
    assert(pat =~= seq!['%'] + p);
    lemma_suffix(p, t, esc);
    assert forall|i: int| 0 <= i <= t.len() implies (like(p, #[trigger] t.skip(i), esc)
        <==> crate::text::occurs_at(folded_text(t), folded_text(q), i)) by {
        let u = t.skip(i);
        lemma_literal(q, seq!['%'], u);
        if q.len() <= u.len() {
            lemma_any(u.skip(q.len() as int), esc);
            assert(folded_text(u.take(q.len() as int)) =~= folded_text(t).subrange(
                i,
                i + q.len(),
            ));
        }
    }
    if like(pat, t, esc) {
        let i = choose|i: int| 0 <= i <= t.len() && like(p, #[trigger] t.skip(i), esc);
        assert(crate::text::occurs_at(folded_text(t), folded_text(q), i));
    }
    if crate::text::occurs(folded_text(t), folded_text(q)) {
        let i = choose|i: int| crate::text::occurs_at(folded_text(t), folded_text(q), i);
        assert(like(p, t.skip(i), esc));
    }
}

proof fn lemma_escaped_keeps_nul(q: Seq<char>)
    requires
        !q.contains('\0'),
    ensures
        !escaped(q).contains('\0'),
    decreases q.len(),
{
    if q.len() > 0 {
        assert(q.contains(q.last()));
        assert(!q.drop_last().contains('\0')) by {
            if q.drop_last().contains('\0') {
                let k = choose|k: int| 0 <= k < q.len() - 1 && q.drop_last()[k] == '\0';
                assert(q[k] == '\0');
            }
        }
        lemma_escaped_keeps_nul(q.drop_last());
        let e = escaped(q);
        let h = escaped(q.drop_last());
        if e.contains('\0') {
            let k = choose|k: int| 0 <= k < e.len() && e[k] == '\0';
            if k < h.len() {
                assert(h[k] == '\0');
            }
        }
    }
}

/// A text matches the pattern `%t%` made of any part `t` of it, whatever characters `t` holds.
pub proof fn lemma_part_matches(t: Seq<char>, s: Seq<char>, i: int)
    requires
        crate::text::occurs_at(s, t, i),
    ensures
        like(seq!['%'] + t + seq!['%'], s, None),
{
    let p = t + seq!['%'];
    assert(seq!['%'] + t + seq!['%'] =~= seq!['%'] + p);
    lemma_suffix(p, s, None);
    let u = s.skip(i);
    assert(u.take(t.len() as int) =~= t);
    lemma_prefix_matches(t, u);
}

proof fn lemma_prefix_matches(t: Seq<char>, u: Seq<char>)
    requires
        t.len() <= u.len(),
        u.take(t.len() as int) == t,
    ensures
        like(t + seq!['%'], u, None),
    decreases t.len(),
{
    let p = t + seq!['%'];
    if t.len() == 0 {
        assert(p =~= seq!['%']);
        lemma_any(u, None);
    } else {
        let rest = t.drop_first();
        let v = u.drop_first();
        assert(v.take(rest.len() as int) =~= u.take(t.len() as int).drop_first());
        lemma_prefix_matches(rest, v);
        assert(p.drop_first() =~= rest + seq!['%']);
        assert(u[0] == u.take(t.len() as int)[0]);
        if t[0] == '%' {
            assert(like(p, v, None));
        }
    }
}

/// Where a pattern matches, its end matches some suffix of the text.
proof fn lemma_end_matches(head: Seq<char>, end: Seq<char>, s: Seq<char>)
    requires
        like(head + end, s, None),
    ensures
        exists|i: int| 0 <= i <= s.len() && like(end, #[trigger] s.skip(i), None),
    decreases head.len(), s.len(),
{
    let p = head + end;
    if head.len() == 0 {
        assert(p =~= end);
        assert(s.skip(0) =~= s);
    } else {
        let rest = head.drop_first();
        assert(p.drop_first() =~= rest + end);
        if head[0] == '%' && like(rest + end, s, None) {
            lemma_end_matches(rest, end, s);
        } else {
            let t = s.drop_first();
            if head[0] == '%' {
                lemma_end_matches(head, end, t);
            } else {
                lemma_end_matches(rest, end, t);
            }
            let i = choose|i: int| 0 <= i <= t.len() && like(end, #[trigger] t.skip(i), None);
            assert(t.skip(i) =~= s.skip(i + 1));
        }
    }
}

/// A text that matches `%ab%` matches `%b%`.
pub proof fn lemma_less_matches(a: Seq<char>, b: Seq<char>, s: Seq<char>)
    requires
        like(seq!['%'] + (a + b) + seq!['%'], s, None),
    ensures
        like(seq!['%'] + b + seq!['%'], s, None),
{
    let end = b + seq!['%'];
    assert(seq!['%'] + (a + b) + seq!['%'] =~= (seq!['%'] + a) + end);
    lemma_end_matches(seq!['%'] + a, end, s);
    lemma_suffix(end, s, None);
    assert(seq!['%'] + b + seq!['%'] =~= seq!['%'] + end);
}

} // verus!
