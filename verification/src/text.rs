//! Character-level string work: whitespace, splitting, joining and searching.

use vstd::prelude::*;
use vstd::string::*;
use vstd::utf8::*;

verus! {

/// `String::push` appends one character to the end of the string.
pub assume_specification[ String::push ](s: &mut String, c: char)
    ensures
        final(s)@ == old(s)@.push(c),
;

/// The characters of a string, in order.
pub fn chars_of(s: &str) -> (out: Vec<char>)
    ensures
        out@ == s@,
{
    let mut out: Vec<char> = Vec::new();
    for c in it: s.chars()
        invariant
            it.seq() == s@,
            out@ == s@.take(it.index()),
    {
        assert(s@.take(it.index()).push(c) =~= s@.take(it.index() + 1));
        out.push(c);
    }
    assert(s@.take(s@.len() as int) =~= s@);
    out
}

/// The string made of the given characters.
pub fn string_of(chars: &Vec<char>) -> (out: String)
    ensures
        out@ == chars@,
{
    let mut out = String::new();
    for i in 0..chars.len()
        invariant
            out@ == chars@.take(i as int),
    {
        assert(chars@.take(i as int).push(chars@[i as int]) =~= chars@.take(i + 1));
        out.push(chars[i]);
    }
    assert(chars@.take(chars@.len() as int) =~= chars@);
    out
}

/// Whether two strings hold the same characters.
pub fn str_eq(a: &str, b: &str) -> (res: bool)
    ensures
        res == (a@ == b@),
{
    let x = a.as_bytes();
    let y = b.as_bytes();
    proof {
        encode_utf8_decode_utf8(a@);
        encode_utf8_decode_utf8(b@);
    }
    if x.len() != y.len() {
        return false;
    }
    let mut i: usize = 0;
    while i < x.len()
        invariant
            x@.len() == y@.len(),
            i <= x@.len(),
            x@ == a.spec_bytes(),
            y@ == b.spec_bytes(),
            forall|k: int| 0 <= k < i ==> x@[k] == y@[k],
        decreases x@.len() - i,
    {
        if x[i] != y[i] {
            return false;
        }
        i += 1;
    }
    assert(x@ =~= y@);
    true
}

/// A set of characters that is stripped from the ends of a string.
#[derive(Clone, Copy, PartialEq, Eq, Structural, Debug)]
pub enum CharClass {
    /// Every character with Unicode's `White_Space` property.
    White,
    /// The space alone, as SQLite's `TRIM` strips it.
    Blank,
    /// The `#` that may precede a tag.
    Hash,
}

/// Unicode's `White_Space` property.
pub open spec fn is_white(c: char) -> bool {
    let u = c as u32;
    ||| 0x9 <= u <= 0xd
    ||| u == 0x20
    ||| u == 0x85
    ||| u == 0xa0
    ||| u == 0x1680
    ||| 0x2000 <= u <= 0x200a
    ||| u == 0x2028
    ||| u == 0x2029
    ||| u == 0x202f
    ||| u == 0x205f
    ||| u == 0x3000
}

impl CharClass {
    pub open spec fn contains(self, c: char) -> bool {
        match self {
            CharClass::White => is_white(c),
            CharClass::Blank => c == ' ',
            CharClass::Hash => c == '#',
        }
    }

    pub fn has(self, c: char) -> (res: bool)
        ensures
            res == self.contains(c),
    {
        match self {
            CharClass::White => {
                let u = c as u32;
                (0x9 <= u && u <= 0xd) || u == 0x20 || u == 0x85 || u == 0xa0 || u == 0x1680 || (
                0x2000 <= u && u <= 0x200a) || u == 0x2028 || u == 0x2029 || u == 0x202f || u
                    == 0x205f || u == 0x3000
            },
            CharClass::Blank => c == ' ',
            CharClass::Hash => c == '#',
        }
    }
}

/// `s` without its leading characters of `class`.
pub open spec fn trim_start(s: Seq<char>, class: CharClass) -> Seq<char>
    decreases s.len(),
{
    if s.len() > 0 && class.contains(s[0]) {
        trim_start(s.drop_first(), class)
    } else {
        s
    }
}

/// `s` without its trailing characters of `class`.
pub open spec fn trim_end(s: Seq<char>, class: CharClass) -> Seq<char>
    decreases s.len(),
{
    if s.len() > 0 && class.contains(s.last()) {
        trim_end(s.drop_last(), class)
    } else {
        s
    }
}

/// `s` without the characters of `class` at either end.
pub open spec fn trimmed(s: Seq<char>, class: CharClass) -> Seq<char> {
    trim_end(trim_start(s, class), class)
}

/// What is left starts at the first character that is not in the class.
pub proof fn lemma_trim_start(s: Seq<char>, class: CharClass, n: int)
    requires
        0 <= n <= s.len(),
        forall|k: int| 0 <= k < n ==> class.contains(s[k]),
        n < s.len() ==> !class.contains(s[n]),
    ensures
        trim_start(s, class) == s.skip(n),
    decreases n,
{
    if n > 0 {
        lemma_trim_start(s.drop_first(), class, n - 1);
        assert(s.drop_first().skip(n - 1) =~= s.skip(n));
    } else {
        assert(s.skip(0) =~= s);
    }
}

/// What is left ends at the last character that is not in the class.
pub proof fn lemma_trim_end(s: Seq<char>, class: CharClass, n: int)
    requires
        0 <= n <= s.len(),
        forall|k: int| n <= k < s.len() ==> class.contains(s[k]),
        n > 0 ==> !class.contains(s[n - 1]),
    ensures
        trim_end(s, class) == s.take(n),
    decreases s.len() - n,
{
    if n < s.len() {
        lemma_trim_end(s.drop_last(), class, n);
        assert(s.drop_last().take(n) =~= s.take(n));
    } else {
        assert(s.take(n) =~= s);
    }
}

/// Strips the leading characters of `class`.
pub fn trim_start_chars(s: &Vec<char>, class: CharClass) -> (out: Vec<char>)
    ensures
        out@ == trim_start(s@, class),
{
    let mut a: usize = 0;
    while a < s.len() && class.has(s[a])
        invariant
            a <= s@.len(),
            forall|k: int| 0 <= k < a ==> class.contains(s@[k]),
        decreases s@.len() - a,
    {
        a += 1;
    }
    proof {
        lemma_trim_start(s@, class, a as int);
    }
    copy_range(s, a, s.len())
}

/// Strips the characters of `class` from both ends.
pub fn trim_chars(s: &Vec<char>, class: CharClass) -> (out: Vec<char>)
    ensures
        out@ == trimmed(s@, class),
{
    let t = trim_start_chars(s, class);
    let mut b: usize = t.len();
    while b > 0 && class.has(t[b - 1])
        invariant
            b <= t@.len(),
            forall|k: int| b <= k < t@.len() ==> class.contains(t@[k]),
        decreases b,
    {
        b -= 1;
    }
    proof {
        lemma_trim_end(t@, class, b as int);
    }
    copy_range(&t, 0, b)
}

/// The characters from index `from` up to index `to`.
pub fn copy_range(s: &Vec<char>, from: usize, to: usize) -> (out: Vec<char>)
    requires
        from <= to <= s@.len(),
    ensures
        out@ == s@.subrange(from as int, to as int),
{
    let mut out: Vec<char> = Vec::new();
    let mut i: usize = from;
    while i < to
        invariant
            from <= i <= to <= s@.len(),
            out@ == s@.subrange(from as int, i as int),
        decreases to - i,
    {
        out.push(s[i]);
        i += 1;
        assert(out@ =~= s@.subrange(from as int, i as int));
    }
    out
}

/// Whether the string is empty once whitespace is trimmed off.
pub open spec fn is_blank(s: Seq<char>) -> bool {
    trimmed(s, CharClass::White).len() == 0
}

/// Whether the string holds nothing but whitespace.
pub fn blank(s: &str) -> (res: bool)
    ensures
        res == is_blank(s@),
{
    trim_chars(&chars_of(s), CharClass::White).len() == 0
}

/// The maximal runs of characters other than whitespace, in order.
pub open spec fn words(s: Seq<char>) -> Seq<Seq<char>>
    decreases s.len(),
{
    if s.len() == 0 {
        seq![]
    } else if is_white(s[0]) {
        words(s.drop_first())
    } else {
        let n = word_len(s);
        proof {
            lemma_word_len_bound(s);
        }
        seq![s.take(n)] + words(s.skip(n))
    }
}

/// How many characters precede the first whitespace of `s`.
pub open spec fn word_len(s: Seq<char>) -> int
    decreases s.len(),
{
    if s.len() == 0 || is_white(s[0]) {
        0
    } else {
        1 + word_len(s.drop_first())
    }
}

/// A word is no longer than the string, and not empty where the string starts with one.
pub proof fn lemma_word_len_bound(s: Seq<char>)
    ensures
        0 <= word_len(s) <= s.len(),
        s.len() > 0 && !is_white(s[0]) ==> word_len(s) > 0,
    decreases s.len(),
{
    if s.len() > 0 && !is_white(s[0]) {
        lemma_word_len_bound(s.drop_first());
    }
}

/// The parts one after another, with `sep` between neighbours.
pub open spec fn joined(parts: Seq<Seq<char>>, sep: Seq<char>) -> Seq<char>
    decreases parts.len(),
{
    if parts.len() == 0 {
        seq![]
    } else if parts.len() == 1 {
        parts[0]
    } else {
        joined(parts.drop_last(), sep) + sep + parts.last()
    }
}

pub proof fn lemma_word_len(s: Seq<char>, n: int)
    requires
        0 <= n <= s.len(),
        forall|k: int| 0 <= k < n ==> !is_white(s[k]),
        n < s.len() ==> is_white(s[n]),
    ensures
        word_len(s) == n,
    decreases s.len(),
{
    if n > 0 {
        lemma_word_len(s.drop_first(), n - 1);
    }
}

/// The words of `s` with one space between neighbours.
pub fn fold_whitespace(s: &Vec<char>) -> (out: Vec<char>)
    ensures
        out@ == joined(words(s@), seq![' ']),
{
    let mut out: Vec<char> = Vec::new();
    let mut i: usize = 0;
    let ghost mut done: Seq<Seq<char>> = seq![];
    assert(s@.skip(0) =~= s@);
    while i < s.len()
        invariant
            i <= s@.len(),
            words(s@) == done + words(s@.skip(i as int)),
            out@ == joined(done, seq![' ']),
            done.len() > 0 ==> out@.len() > 0,
            done.len() == 0 ==> out@.len() == 0,
        decreases s@.len() - i,
    {
        let ghost rest = s@.skip(i as int);
        if CharClass::White.has(s[i]) {
            i += 1;
            assert(rest.drop_first() =~= s@.skip(i as int));
        } else {
            let from = i;
            if out.len() > 0 {
                out.push(' ');
            }
            let ghost before = out@;
            while i < s.len() && !CharClass::White.has(s[i])
                invariant
                    from <= i <= s@.len(),
                    forall|k: int| from <= k < i ==> !is_white(s@[k]),
                    out@ == before + s@.subrange(from as int, i as int),
                decreases s@.len() - i,
            {
                out.push(s[i]);
                i += 1;
                assert(out@ =~= before + s@.subrange(from as int, i as int));
            }
            proof {
                lemma_word_len(rest, i - from);
                assert(rest.take(i - from) =~= s@.subrange(from as int, i as int));
                assert(rest.skip(i - from) =~= s@.skip(i as int));
                let w = s@.subrange(from as int, i as int);
                assert(i > from);
                let next = done.push(w);
                assert(next.drop_last() =~= done);
                assert(done + (seq![w] + words(s@.skip(i as int))) =~= next + words(
                    s@.skip(i as int),
                ));
                if done.len() == 0 {
                    assert(out@ =~= w);
                } else {
                    assert(out@ =~= joined(done, seq![' ']) + seq![' '] + w);
                }
                done = next;
            }
        }
    }
    assert(done + words(s@.skip(i as int)) =~= done);
    out
}

/// The views of a list of strings.
pub open spec fn views(v: Seq<String>) -> Seq<Seq<char>> {
    Seq::new(v.len(), |i: int| v[i]@)
}

/// The views of an optional list of strings.
pub open spec fn opt_views(v: Option<Vec<String>>) -> Option<Seq<Seq<char>>> {
    match v {
        Some(v) => Some(views(v@)),
        None => None,
    }
}

/// The parts of `s` between occurrences of `sep`.
pub open spec fn split_on(s: Seq<char>, sep: char) -> Seq<Seq<char>>
    decreases s.len(),
{
    if s.len() == 0 {
        seq![seq![]]
    } else {
        let parts = split_on(s.drop_last(), sep);
        if s.last() == sep {
            parts.push(seq![])
        } else {
            parts.drop_last().push(parts.last().push(s.last()))
        }
    }
}

/// Cuts a string at every occurrence of `sep`.
pub fn split_chars(s: &Vec<char>, sep: char) -> (out: Vec<Vec<char>>)
    ensures
        out@.map_values(|p: Vec<char>| p@) == split_on(s@, sep),
{
    let mut done: Vec<Vec<char>> = Vec::new();
    let mut cur: Vec<char> = Vec::new();
    let ghost view = |p: Vec<char>| p@;
    assert(s@.take(0) =~= seq![]);
    assert(done@.map_values(view).push(cur@) =~= split_on(s@.take(0), sep));
    for i in 0..s.len()
        invariant
            view == (|p: Vec<char>| p@),
            done@.map_values(view).push(cur@) == split_on(s@.take(i as int), sep),
    {
        let c = s[i];
        proof {
            let t = s@.take(i + 1);
            assert(t.drop_last() =~= s@.take(i as int));
            let parts = done@.map_values(view).push(cur@);
            assert(parts.drop_last() =~= done@.map_values(view));
        }
        if c == sep {
            let ghost before = done@;
            done.push(cur);
            cur = Vec::new();
            assert(done@.map_values(view) =~= before.map_values(view).push(done@.last()@));
            assert(done@.map_values(view).push(cur@) =~= split_on(s@.take(i + 1), sep));
        } else {
            cur.push(c);
            assert(done@.map_values(view).push(cur@) =~= split_on(s@.take(i + 1), sep));
        }
    }
    let ghost before = done@;
    done.push(cur);
    assert(done@.map_values(view) =~= before.map_values(view).push(done@.last()@));
    assert(s@.take(s@.len() as int) =~= s@);
    done
}

/// Whether `needle` stands in `hay` at index `i`.
pub open spec fn occurs_at(hay: Seq<char>, needle: Seq<char>, i: int) -> bool {
    &&& 0 <= i
    &&& i + needle.len() <= hay.len()
    &&& hay.subrange(i, i + needle.len()) == needle
}

/// Whether `needle` is a contiguous part of `hay`.
pub open spec fn occurs(hay: Seq<char>, needle: Seq<char>) -> bool {
    exists|i: int| occurs_at(hay, needle, i)
}

/// Whether `needle` stands in `hay` at index `i`.
pub fn matches_at(hay: &Vec<char>, needle: &Vec<char>, i: usize) -> (res: bool)
    ensures
        res == occurs_at(hay@, needle@, i as int),
{
    if i > hay.len() || hay.len() - i < needle.len() {
        return false;
    }
    let mut k: usize = 0;
    while k < needle.len()
        invariant
            k <= needle@.len(),
            hay@.len() == hay.len(),
            i + needle@.len() <= hay@.len(),
            forall|j: int| 0 <= j < k ==> hay@[i + j] == needle@[j],
        decreases needle@.len() - k,
    {
        if hay[i + k] != needle[k] {
            assert(hay@.subrange(i as int, i + needle@.len())[k as int] != needle@[k as int]);
            return false;
        }
        k += 1;
    }
    assert(hay@.subrange(i as int, i + needle@.len()) =~= needle@);
    true
}

/// The index of the first occurrence of `needle` in `hay`.
pub fn find_chars(hay: &Vec<char>, needle: &Vec<char>) -> (res: Option<usize>)
    ensures
        match res {
            Some(i) => occurs_at(hay@, needle@, i as int) && forall|k: int|
                0 <= k < i ==> !#[trigger] occurs_at(hay@, needle@, k),
            None => !occurs(hay@, needle@),
        },
{
    let mut i: usize = 0;
    while i < hay.len()
        invariant
            i <= hay@.len(),
            forall|k: int| 0 <= k < i ==> !#[trigger] occurs_at(hay@, needle@, k),
        decreases hay@.len() - i,
    {
        if matches_at(hay, needle, i) {
            return Some(i);
        }
        i += 1;
    }
    if matches_at(hay, needle, i) {
        return Some(i);
    }
    None
}

/// Whether `needle` is a contiguous part of `hay`.
pub fn contains_str(hay: &str, needle: &str) -> (res: bool)
    ensures
        res == occurs(hay@, needle@),
{
    find_chars(&chars_of(hay), &chars_of(needle)).is_some()
}

/// The strings one after another, with `sep` between neighbours.
pub fn join_strings(parts: &Vec<String>, sep: &str) -> (out: String)
    ensures
        out@ == joined(views(parts@), sep@),
{
    let mut out = String::new();
    let ghost all = views(parts@);
    assert(out@ =~= joined(all.take(0), sep@));
    for i in 0..parts.len()
        invariant
            all == views(parts@),
            out@ == joined(all.take(i as int), sep@),
    {
        let ghost before = out@;
        if i > 0 {
            out.append(sep);
        }
        out.append(parts[i].as_str());
        proof {
            let t = all.take(i + 1);
            assert(t.drop_last() =~= all.take(i as int));
            assert(t.last() == parts@[i as int]@);
            if i == 0 {
                assert(t[0] == parts@[0]@);
                assert(out@ =~= t[0]);
            } else {
                assert(out@ =~= before + sep@ + t.last());
            }
        }
    }
    assert(all.take(all.len() as int) =~= all);
    out
}

/// Whether a text is among those of a list.
pub fn has_text(list: &Vec<String>, s: &str) -> (res: bool)
    ensures
        res == views(list@).contains(s@),
{
    let ghost all = views(list@);
    for i in 0..list.len()
        invariant
            all == views(list@),
            forall|k: int| 0 <= k < i ==> all[k] != s@,
    {
        if str_eq(list[i].as_str(), s) {
            assert(all[i as int] == s@);
            return true;
        }
    }
    false
}

/// The order of texts by code points: a proper prefix comes first.
pub open spec fn text_before(a: Seq<char>, b: Seq<char>) -> bool
    decreases a.len(),
{
    if b.len() == 0 {
        false
    } else if a.len() == 0 {
        true
    } else if a[0] != b[0] {
        a[0] < b[0]
    } else {
        text_before(a.drop_first(), b.drop_first())
    }
}

/// Of two texts that differ, one comes first.
pub proof fn lemma_text_total(a: Seq<char>, b: Seq<char>)
    ensures
        a == b || text_before(a, b) || text_before(b, a),
        !text_before(a, a),
    decreases a.len(),
{
    if a.len() > 0 {
        lemma_text_total(a.drop_first(), a.drop_first());
        if b.len() > 0 && a[0] == b[0] {
            lemma_text_total(a.drop_first(), b.drop_first());
            if a.drop_first() == b.drop_first() {
                assert(a =~= seq![a[0]] + a.drop_first());
                assert(b =~= seq![b[0]] + b.drop_first());
            }
        }
    } else if b.len() == 0 {
        assert(a =~= b);
    }
}

pub proof fn lemma_text_transitive(a: Seq<char>, b: Seq<char>, c: Seq<char>)
    requires
        text_before(a, b),
        text_before(b, c),
    ensures
        text_before(a, c),
    decreases a.len(),
{
    if a.len() > 0 && a[0] == b[0] && b[0] == c[0] {
        lemma_text_transitive(a.drop_first(), b.drop_first(), c.drop_first());
    }
}

/// Whether `a` comes before `b`.
pub fn text_precedes(a: &Vec<char>, b: &Vec<char>) -> (res: bool)
    ensures
        res == text_before(a@, b@),
{
    let mut i: usize = 0;
    assert(a@.skip(0) =~= a@);
    assert(b@.skip(0) =~= b@);
    while i < a.len() && i < b.len()
        invariant
            i <= a@.len(),
            i <= b@.len(),
            text_before(a@, b@) == text_before(a@.skip(i as int), b@.skip(i as int)),
        decreases a@.len() - i,
    {
        if a[i] != b[i] {
            return a[i] < b[i];
        }
        assert(a@.skip(i as int).drop_first() =~= a@.skip(i + 1));
        assert(b@.skip(i as int).drop_first() =~= b@.skip(i + 1));
        i += 1;
    }
    i < b.len()
}

} // verus!
