//! Listing the rows of a table: those that a condition selects, in a given order.

use vstd::prelude::*;

verus! {

/// Whether `before` is a strict total order on the elements of `s`.
pub open spec fn strict_order<V>(s: Seq<V>, before: spec_fn(V, V) -> bool) -> bool {
    &&& forall|a: V| #[trigger] s.contains(a) ==> !before(a, a)
    &&& forall|a: V, b: V, c: V|
        s.contains(a) && s.contains(b) && s.contains(c) && #[trigger] before(a, b)
            && #[trigger] before(b, c) ==> before(a, c)
    &&& forall|a: V, b: V|
        #[trigger] s.contains(a) && #[trigger] s.contains(b) && a != b ==> before(a, b) || before(
            b,
            a,
        )
}

/// Whether every element of `s` comes before those that follow it.
pub open spec fn ascending<V>(s: Seq<V>, before: spec_fn(V, V) -> bool) -> bool {
    forall|i: int, j: int| 0 <= i < j < s.len() ==> before(#[trigger] s[i], #[trigger] s[j])
}

/// Whether `out` is the elements of `from` that `keep` selects, in the order of `before`.
pub open spec fn is_listing<V>(
    out: Seq<V>,
    from: Seq<V>,
    keep: spec_fn(V) -> bool,
    before: spec_fn(V, V) -> bool,
) -> bool {
    &&& ascending(out, before)
    &&& forall|v: V| #[trigger] out.contains(v) <==> from.contains(v) && keep(v)
}

/// The elements of `from` that `keep` selects, in the order of `before`.
pub open spec fn listing<V>(
    from: Seq<V>,
    keep: spec_fn(V) -> bool,
    before: spec_fn(V, V) -> bool,
) -> Seq<V> {
    choose|out: Seq<V>| is_listing(out, from, keep, before)
}

/// There is one listing at most.
pub proof fn lemma_listing_unique<V>(
    a: Seq<V>,
    b: Seq<V>,
    from: Seq<V>,
    keep: spec_fn(V) -> bool,
    before: spec_fn(V, V) -> bool,
)
    requires
        strict_order(from, before),
        is_listing(a, from, keep, before),
        is_listing(b, from, keep, before),
    ensures
        a == b,
    decreases a.len(),
{
    if a.len() == 0 {
        if b.len() > 0 {
            assert(b.contains(b[0]));
            assert(a.contains(b[0]));
        }
        assert(a =~= b);
    } else {
        assert(a.contains(a[0]));
        assert(b.contains(a[0]));
        let m = choose|k: int| 0 <= k < b.len() && b[k] == a[0];
        assert(b.contains(b[0]));
        assert(a.contains(b[0]));
        let k = choose|k: int| 0 <= k < a.len() && a[k] == b[0];
        if a[0] != b[0] {
            assert(before(b[0], b[m]));
            assert(before(a[0], a[k]));
            assert(before(a[0], a[0]));
        }
        let x = a.drop_first();
        let y = b.drop_first();
        let keep2 = |v: V| keep(v) && v != a[0];
        assert(is_listing(x, from, keep2, before)) by {
            lemma_rest_is_listing(a, from, keep, keep2, before);
        }
        assert(is_listing(y, from, keep2, before)) by {
            lemma_rest_is_listing(b, from, keep, keep2, before);
        }
        lemma_listing_unique(x, y, from, keep2, before);
        assert(a =~= seq![a[0]] + x);
        assert(b =~= seq![b[0]] + y);
    }
}

proof fn lemma_rest_is_listing<V>(
    a: Seq<V>,
    from: Seq<V>,
    keep: spec_fn(V) -> bool,
    keep2: spec_fn(V) -> bool,
    before: spec_fn(V, V) -> bool,
)
    requires
        strict_order(from, before),
        is_listing(a, from, keep, before),
        a.len() > 0,
        forall|v: V| #[trigger] keep2(v) <==> keep(v) && v != a[0],
    ensures
        is_listing(a.drop_first(), from, keep2, before),
{
    let x = a.drop_first();
    assert forall|i: int, j: int| 0 <= i < j < x.len() implies before(
        #[trigger] x[i],
        #[trigger] x[j],
    ) by {
        assert(before(a[i + 1], a[j + 1]));
    }
    assert forall|v: V| #[trigger] x.contains(v) <==> from.contains(v) && keep2(v) by {
        if x.contains(v) {
            let i = choose|i: int| 0 <= i < x.len() && x[i] == v;
            assert(a[i + 1] == v);
            assert(a.contains(v));
            assert(before(a[0], a[i + 1]));
            assert(a.contains(a[0]));
        }
        if from.contains(v) && keep2(v) {
            assert(a.contains(v));
            let i = choose|i: int| 0 <= i < a.len() && a[i] == v;
            assert(x[i - 1] == v);
        }
    }
}

/// There is a listing, and `listing` gives it.
pub proof fn lemma_listing<V>(
    from: Seq<V>,
    keep: spec_fn(V) -> bool,
    before: spec_fn(V, V) -> bool,
)
    requires
        strict_order(from, before),
    ensures
        is_listing(listing(from, keep, before), from, keep, before),
{
    let out = lemma_listing_exists(from, from.len() as int, keep, before);
    assert(from.take(from.len() as int) =~= from);
    assert(is_listing(out, from, keep, before));
}

proof fn lemma_listing_exists<V>(
    from: Seq<V>,
    n: int,
    keep: spec_fn(V) -> bool,
    before: spec_fn(V, V) -> bool,
) -> (out: Seq<V>)
    requires
        strict_order(from, before),
        0 <= n <= from.len(),
    ensures
        is_listing(out, from.take(n), keep, before),
    decreases n,
{
    if n == 0 {
        let out = Seq::<V>::empty();
        assert(is_listing(out, from.take(0), keep, before));
        out
    } else {
        let rest = lemma_listing_exists(from, n - 1, keep, before);
        let v = from[n - 1];
        let prev = from.take(n - 1);
        let cur = from.take(n);
        assert(from.contains(v));
        assert forall|u: V| #[trigger] cur.contains(u) <==> prev.contains(u) || u == v by {
            if cur.contains(u) {
                let i = choose|i: int| 0 <= i < n && cur[i] == u;
                if i < n - 1 {
                    assert(prev[i] == u);
                }
            }
            if prev.contains(u) {
                let i = choose|i: int| 0 <= i < n - 1 && prev[i] == u;
                assert(cur[i] == u);
            }
            assert(cur[n - 1] == v);
        }
        if !keep(v) || rest.contains(v) {
            assert(is_listing(rest, cur, keep, before));
            rest
        } else {
            assert forall|u: V| #[trigger] rest.contains(u) implies from.contains(u) by {
                assert(prev.contains(u));
                let i = choose|i: int| 0 <= i < n - 1 && prev[i] == u;
                assert(from[i] == u);
            }
            let out = lemma_insert(rest, v, from, before);
            assert(is_listing(out, cur, keep, before));
            out
        }
    }
}

proof fn lemma_insert<V>(
    s: Seq<V>,
    v: V,
    from: Seq<V>,
    before: spec_fn(V, V) -> bool,
) -> (out: Seq<V>)
    requires
        strict_order(from, before),
        ascending(s, before),
        forall|u: V| #[trigger] s.contains(u) ==> from.contains(u),
        from.contains(v),
        !s.contains(v),
    ensures
        ascending(out, before),
        forall|u: V| #[trigger] out.contains(u) <==> s.contains(u) || u == v,
    decreases s.len(),
{
    if s.len() == 0 || before(s.last(), v) {
        let out = s.push(v);
        assert forall|i: int, j: int| 0 <= i < j < out.len() implies before(
            #[trigger] out[i],
            #[trigger] out[j],
        ) by {
            if j == s.len() {
                assert(s.contains(s[i]));
                assert(s.contains(s.last()));
                if i < s.len() - 1 {
                    assert(before(s[i], s[s.len() - 1]));
                }
            }
        }
        assert forall|u: V| #[trigger] out.contains(u) <==> s.contains(u) || u == v by {
            if s.contains(u) {
                let i = choose|i: int| 0 <= i < s.len() && s[i] == u;
                assert(out[i] == u);
            }
            assert(out[s.len() as int] == v);
        }
        out
    } else {
        let t = s.drop_last();
        let last = s.last();
        assert(s.contains(last));
        assert(before(v, last));
        assert forall|u: V| #[trigger] t.contains(u) implies s.contains(u) && from.contains(u) by {
            let i = choose|i: int| 0 <= i < t.len() && t[i] == u;
            assert(s[i] == u);
            assert(s.contains(u));
        }
        assert forall|i: int, j: int| 0 <= i < j < t.len() implies before(
            #[trigger] t[i],
            #[trigger] t[j],
        ) by {
            assert(before(s[i], s[j]));
        }
        let head = lemma_insert(t, v, from, before);
        let out = head.push(last);
        assert forall|i: int, j: int| 0 <= i < j < out.len() implies before(
            #[trigger] out[i],
            #[trigger] out[j],
        ) by {
            if j == head.len() {
                assert(head.contains(head[i]));
                if head[i] != v {
                    assert(t.contains(head[i]));
                    let k = choose|k: int| 0 <= k < t.len() && t[k] == head[i];
                    assert(before(s[k], s[s.len() - 1]));
                }
            }
        }
        assert forall|u: V| #[trigger] out.contains(u) <==> s.contains(u) || u == v by {
            if s.contains(u) {
                let i = choose|i: int| 0 <= i < s.len() && s[i] == u;
                if i < s.len() - 1 {
                    assert(t[i] == u);
                    assert(head.contains(u));
                    let k = choose|k: int| 0 <= k < head.len() && head[k] == u;
                    assert(out[k] == u);
                } else {
                    assert(out[head.len() as int] == u);
                }
            }
            if u == v {
                assert(head.contains(v));
                let k = choose|k: int| 0 <= k < head.len() && head[k] == v;
                assert(out[k] == v);
            }
            if out.contains(u) {
                let k = choose|k: int| 0 <= k < out.len() && out[k] == u;
                if k < head.len() {
                    assert(head.contains(u));
                }
            }
        }
        out
    }
}

/// A row of a table that is listed in a fixed order.
pub trait Ranked: View + Sized {
    /// Whether the first row is listed before the second.
    spec fn order() -> spec_fn(Self::V, Self::V) -> bool;

    fn precedes(&self, other: &Self) -> (res: bool)
        ensures
            res == Self::order()(self@, other@),
    ;
}

/// The views of the rows of a table.
pub open spec fn row_views<T: View>(rows: Seq<T>) -> Seq<T::V> {
    Seq::new(rows.len(), |i: int| rows[i]@)
}

/// Whether the indices `idx` name rows in the order of the table.
spec fn ascending_indices<T: Ranked>(idx: Seq<usize>, rows: Seq<T>) -> bool {
    &&& forall|k: int| 0 <= k < idx.len() ==> #[trigger] idx[k] < rows.len()
    &&& forall|i: int, j: int|
        0 <= i < j < idx.len() ==> T::order()(
            rows[#[trigger] idx[i] as int]@,
            rows[#[trigger] idx[j] as int]@,
        )
}

/// Whether no two rows have the same view.
pub open spec fn distinct_rows<T: View>(rows: Seq<T>) -> bool {
    forall|i: int, j: int|
        0 <= i < rows.len() && 0 <= j < rows.len() && i != j ==> #[trigger] rows[i]@
            != #[trigger] rows[j]@
}

/// The indices of `idx` from `lo` up to `hi`, in the order of the rows that they name.
fn sort_range<T: Ranked>(rows: &Vec<T>, idx: &Vec<usize>, lo: usize, hi: usize) -> (out: Vec<usize>)
    requires
        lo <= hi <= idx@.len(),
        strict_order(row_views(rows@), T::order()),
        distinct_rows(rows@),
        forall|k: int| 0 <= k < idx@.len() ==> #[trigger] idx@[k] < rows@.len(),
        idx@.no_duplicates(),
    ensures
        ascending_indices(out@, rows@),
        out@.len() == hi - lo,
        forall|i: usize| #[trigger]
            out@.contains(i) <==> idx@.subrange(lo as int, hi as int).contains(i),
    decreases hi - lo,
{
    if hi - lo == 0 {
        let out: Vec<usize> = Vec::new();
        assert(idx@.subrange(lo as int, hi as int) =~= out@);
        return out;
    }
    if hi - lo == 1 {
        let mut out: Vec<usize> = Vec::new();
        out.push(idx[lo]);
        assert(idx@.subrange(lo as int, hi as int) =~= out@);
        return out;
    }
    let mid = lo + (hi - lo) / 2;
    let a = sort_range(rows, idx, lo, mid);
    let b = sort_range(rows, idx, mid, hi);
    let ghost sa = idx@.subrange(lo as int, mid as int);
    let ghost sb = idx@.subrange(mid as int, hi as int);
    assert forall|i: int, j: int| 0 <= i < a@.len() && 0 <= j < b@.len() implies #[trigger] a@[i]
        != #[trigger] b@[j] by {
        assert(a@.contains(a@[i]));
        assert(b@.contains(b@[j]));
        let x = choose|x: int| 0 <= x < sa.len() && sa[x] == a@[i];
        let y = choose|y: int| 0 <= y < sb.len() && sb[y] == b@[j];
        assert(idx@[lo + x] == a@[i]);
        assert(idx@[mid + y] == b@[j]);
    }
    let out = merge(rows, &a, &b);
    assert forall|i: usize| #[trigger]
        out@.contains(i) <==> idx@.subrange(lo as int, hi as int).contains(i) by {
        let s = idx@.subrange(lo as int, hi as int);
        if out@.contains(i) {
            if a@.contains(i) {
                let x = choose|x: int| 0 <= x < sa.len() && sa[x] == i;
                assert(s[x] == i);
            } else {
                assert(b@.contains(i));
                let y = choose|y: int| 0 <= y < sb.len() && sb[y] == i;
                assert(s[mid - lo + y] == i);
            }
        }
        if s.contains(i) {
            let x = choose|x: int| 0 <= x < s.len() && s[x] == i;
            if x < mid - lo {
                assert(sa[x] == i);
                assert(a@.contains(i));
            } else {
                assert(sb[x - (mid - lo)] == i);
                assert(b@.contains(i));
            }
        }
    }
    out
}

/// Merges two ascending lists of indices that have no index in common.
fn merge<T: Ranked>(rows: &Vec<T>, a: &Vec<usize>, b: &Vec<usize>) -> (out: Vec<usize>)
    requires
        strict_order(row_views(rows@), T::order()),
        distinct_rows(rows@),
        ascending_indices(a@, rows@),
        ascending_indices(b@, rows@),
        forall|i: int, j: int|
            0 <= i < a@.len() && 0 <= j < b@.len() ==> #[trigger] a@[i] != #[trigger] b@[j],
    ensures
        ascending_indices(out@, rows@),
        out@.len() == a@.len() + b@.len(),
        forall|i: usize| #[trigger] out@.contains(i) <==> a@.contains(i) || b@.contains(i),
{
    let mut out: Vec<usize> = Vec::new();
    let mut i: usize = 0;
    let mut j: usize = 0;
    let ghost vs = row_views(rows@);
    let ghost before = T::order();
    while i < a.len() || j < b.len()
        invariant
            vs == row_views(rows@),
            before == T::order(),
            strict_order(vs, before),
            distinct_rows(rows@),
            ascending_indices(a@, rows@),
            ascending_indices(b@, rows@),
            forall|x: int, y: int|
                0 <= x < a@.len() && 0 <= y < b@.len() ==> #[trigger] a@[x] != #[trigger] b@[y],
            i <= a@.len(),
            j <= b@.len(),
            out@.len() == i + j,
            ascending_indices(out@, rows@),
            forall|k: int, x: int|
                0 <= k < out@.len() && i <= x < a@.len() ==> before(
                    vs[#[trigger] out@[k] as int],
                    vs[#[trigger] a@[x] as int],
                ),
            forall|k: int, y: int|
                0 <= k < out@.len() && j <= y < b@.len() ==> before(
                    vs[#[trigger] out@[k] as int],
                    vs[#[trigger] b@[y] as int],
                ),
            forall|k: int|
                0 <= k < out@.len() ==> a@.contains(#[trigger] out@[k]) || b@.contains(out@[k]),
            forall|x: int| 0 <= x < i ==> out@.contains(#[trigger] a@[x]),
            forall|y: int| 0 <= y < j ==> out@.contains(#[trigger] b@[y]),
        decreases a@.len() - i + b@.len() - j,
    {
        let from_a = if i >= a.len() {
            false
        } else if j >= b.len() {
            true
        } else {
            rows[a[i]].precedes(&rows[b[j]])
        };
        let ghost prev = out@;
        let next = if from_a {
            a[i]
        } else {
            b[j]
        };
        proof {
            // `next` comes before everything else that is left.
            assert forall|x: int| i <= x < a@.len() && a@[x] != next implies before(
                vs[next as int],
                vs[#[trigger] a@[x] as int],
            ) by {
                if from_a {
                    if x > i {
                        assert(before(rows@[a@[i as int] as int]@, rows@[a@[x] as int]@));
                    }
                } else {
                    assert(vs.contains(vs[a@[i as int] as int]));
                    assert(vs.contains(vs[next as int]));
                    assert(vs.contains(vs[a@[x] as int]));
                    assert(a@[i as int] != b@[j as int]);
                    assert(before(vs[next as int], vs[a@[i as int] as int]));
                    if x > i {
                        assert(before(rows@[a@[i as int] as int]@, rows@[a@[x] as int]@));
                    }
                }
            }
            assert forall|y: int| j <= y < b@.len() && b@[y] != next implies before(
                vs[next as int],
                vs[#[trigger] b@[y] as int],
            ) by {
                if !from_a {
                    if y > j {
                        assert(before(rows@[b@[j as int] as int]@, rows@[b@[y] as int]@));
                    }
                } else {
                    assert(vs.contains(vs[next as int]));
                    assert(vs.contains(vs[b@[y] as int]));
                    assert(vs.contains(vs[b@[j as int] as int]));
                    assert(before(vs[next as int], vs[b@[j as int] as int]));
                    if y > j {
                        assert(before(rows@[b@[j as int] as int]@, rows@[b@[y] as int]@));
                    }
                }
            }
        }
        out.push(next);
        if from_a {
            i += 1;
        } else {
            j += 1;
        }
        proof {
            assert(a@.contains(next) || b@.contains(next));
            assert forall|x: int| 0 <= x < i implies out@.contains(#[trigger] a@[x]) by {
                if prev.contains(a@[x]) {
                    let k = choose|k: int| 0 <= k < prev.len() && prev[k] == a@[x];
                    assert(out@[k] == a@[x]);
                } else {
                    assert(out@[prev.len() as int] == a@[x]);
                }
            }
            assert forall|y: int| 0 <= y < j implies out@.contains(#[trigger] b@[y]) by {
                if prev.contains(b@[y]) {
                    let k = choose|k: int| 0 <= k < prev.len() && prev[k] == b@[y];
                    assert(out@[k] == b@[y]);
                } else {
                    assert(out@[prev.len() as int] == b@[y]);
                }
            }
            assert forall|k: int, x: int|
                0 <= k < out@.len() && i <= x < a@.len() implies before(
                vs[#[trigger] out@[k] as int],
                vs[#[trigger] a@[x] as int],
            ) by {
                if k < prev.len() {
                    assert(out@[k] == prev[k]);
                } else if a@[x] == next {
                    // Ascending lists do not repeat an index.
                    assert(from_a);
                    assert(before(rows@[a@[i - 1] as int]@, rows@[a@[x] as int]@));
                    assert(vs.contains(vs[next as int]));
                }
            }
            assert forall|k: int, y: int|
                0 <= k < out@.len() && j <= y < b@.len() implies before(
                vs[#[trigger] out@[k] as int],
                vs[#[trigger] b@[y] as int],
            ) by {
                if k < prev.len() {
                    assert(out@[k] == prev[k]);
                } else if b@[y] == next {
                    assert(!from_a);
                    assert(before(rows@[b@[j - 1] as int]@, rows@[b@[y] as int]@));
                    assert(vs.contains(vs[next as int]));
                }
            }
        }
    }
    assert forall|i: usize| #[trigger] out@.contains(i) implies a@.contains(i) || b@.contains(i) by {
        let k = choose|k: int| 0 <= k < out@.len() && out@[k] == i;
        assert(out@[k] == i);
    }
    out
}

/// The views of the rows that the indices name.
pub open spec fn picked<T: View>(idx: Seq<usize>, rows: Seq<T>) -> Seq<T::V> {
    Seq::new(idx.len(), |k: int| rows[idx[k] as int]@)
}

/// The indices of the rows whose flag is set, in the order of the table.
pub fn list_where<T: Ranked>(rows: &Vec<T>, flags: &Vec<bool>) -> (out: Vec<usize>)
    requires
        flags@.len() == rows@.len(),
        strict_order(row_views(rows@), T::order()),
        distinct_rows(rows@),
    ensures
        forall|k: int| 0 <= k < out@.len() ==> #[trigger] out@[k] < rows@.len(),
        forall|keep: spec_fn(T::V) -> bool|
            (forall|i: int| 0 <= i < rows@.len() ==> #[trigger] flags@[i] == keep(rows@[i]@))
                ==> picked(out@, rows@) == #[trigger] listing(
                row_views(rows@),
                keep,
                T::order(),
            ),
{
    let mut idx: Vec<usize> = Vec::new();
    let mut i: usize = 0;
    while i < rows.len()
        invariant
            i <= rows@.len(),
            flags@.len() == rows@.len(),
            forall|k: int| 0 <= k < idx@.len() ==> #[trigger] idx@[k] < i && flags@[idx@[k] as int],
            idx@.no_duplicates(),
            forall|m: int| 0 <= m < i && #[trigger] flags@[m] ==> idx@.contains(m as usize),
        decreases rows@.len() - i,
    {
        if flags[i] {
            let ghost prev = idx@;
            idx.push(i);
            assert(idx@[prev.len() as int] == i);
            assert forall|m: int| 0 <= m < i + 1 && #[trigger] flags@[m] implies idx@.contains(
                m as usize,
            ) by {
                if m < i {
                    let k = choose|k: int| 0 <= k < prev.len() && prev[k] == m as usize;
                    assert(idx@[k] == m as usize);
                }
            }
        }
        i += 1;
    }
    let out = sort_range(rows, &idx, 0, idx.len());
    assert(idx@.subrange(0, idx@.len() as int) =~= idx@);
    assert forall|keep: spec_fn(T::V) -> bool|
        (forall|i: int| 0 <= i < rows@.len() ==> #[trigger] flags@[i] == keep(
            rows@[i]@,
        )) implies picked(out@, rows@) == #[trigger] listing(row_views(rows@), keep, T::order()) by {
        let vs = row_views(rows@);
        let p = picked(out@, rows@);
        assert forall|v: T::V| #[trigger] p.contains(v) <==> vs.contains(v) && keep(v) by {
            if p.contains(v) {
                let k = choose|k: int| 0 <= k < p.len() && p[k] == v;
                assert(out@.contains(out@[k]));
                assert(idx@.contains(out@[k]));
                let x = choose|x: int| 0 <= x < idx@.len() && idx@[x] == out@[k];
                assert(flags@[idx@[x] as int]);
                assert(vs[out@[k] as int] == v);
            }
            if vs.contains(v) && keep(v) {
                let m = choose|m: int| 0 <= m < vs.len() && vs[m] == v;
                assert(flags@[m]);
                assert(out@.contains(m as usize));
                let k = choose|k: int| 0 <= k < out@.len() && out@[k] == m as usize;
                assert(p[k] == v);
            }
        }
        assert forall|i: int, j: int| 0 <= i < j < p.len() implies T::order()(
            #[trigger] p[i],
            #[trigger] p[j],
        ) by {
            assert(T::order()(rows@[out@[i] as int]@, rows@[out@[j] as int]@));
        }
        assert(is_listing(p, vs, keep, T::order()));
        lemma_listing(vs, keep, T::order());
        lemma_listing_unique(p, listing(vs, keep, T::order()), vs, keep, T::order());
    }
    out
}

} // verus!
