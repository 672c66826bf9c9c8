//! Facts about filtered sequences.

use vstd::prelude::*;

verus! {

/// A condition that holds of every element filters nothing out.
pub proof fn lemma_filter_all<A>(s: Seq<A>, p: spec_fn(A) -> bool)
    requires
        forall|i: int| 0 <= i < s.len() ==> p(#[trigger] s[i]),
    ensures
        s.filter(p) == s,
    decreases s.len(),
{
    reveal(Seq::filter);
    if s.len() > 0 {
        let t = s.drop_last();
        assert forall|i: int| 0 <= i < t.len() implies p(#[trigger] t[i]) by {
            assert(t[i] == s[i]);
        }
        lemma_filter_all(t, p);
        assert(p(s[s.len() - 1]));
        assert(t.push(s.last()) =~= s);
    }
}

/// A condition that fails on one element alone filters out that one.
pub proof fn lemma_filter_remove<A>(s: Seq<A>, p: spec_fn(A) -> bool, i: int)
    requires
        0 <= i < s.len(),
        !p(s[i]),
        forall|k: int| 0 <= k < s.len() && k != i ==> p(#[trigger] s[k]),
    ensures
        s.filter(p) == s.remove(i),
    decreases s.len(),
{
    reveal(Seq::filter);
    let t = s.drop_last();
    if i == s.len() - 1 {
        assert forall|k: int| 0 <= k < t.len() implies p(#[trigger] t[k]) by {
            assert(t[k] == s[k]);
        }
        lemma_filter_all(t, p);
        assert(s.remove(i) =~= t);
    } else {
        assert forall|k: int| 0 <= k < t.len() && k != i implies p(#[trigger] t[k]) by {
            assert(t[k] == s[k]);
        }
        lemma_filter_remove(t, p, i);
        assert(p(s[s.len() - 1]));
        assert(t.remove(i).push(s.last()) =~= s.remove(i));
    }
}

/// Filtering twice is filtering by both conditions.
pub proof fn lemma_filter_twice<A>(
    s: Seq<A>,
    p: spec_fn(A) -> bool,
    q: spec_fn(A) -> bool,
    both: spec_fn(A) -> bool,
)
    requires
        forall|i: int| 0 <= i < s.len() ==> both(#[trigger] s[i]) == (p(s[i]) && q(s[i])),
    ensures
        s.filter(p).filter(q) == s.filter(both),
    decreases s.len(),
{
    reveal(Seq::filter);
    if s.len() > 0 {
        let t = s.drop_last();
        assert forall|i: int| 0 <= i < t.len() implies both(#[trigger] t[i]) == (p(t[i]) && q(
            t[i],
        )) by {
            assert(t[i] == s[i]);
        }
        lemma_filter_twice(t, p, q, both);
        assert(both(s[s.len() - 1]) == (p(s.last()) && q(s.last())));
        if p(s.last()) {
            let f = t.filter(p);
            assert(f.push(s.last()).drop_last() =~= f);
        }
    }
}

/// What a filter keeps: the elements of which the condition holds.
pub proof fn lemma_filter_elements<A>(s: Seq<A>, p: spec_fn(A) -> bool)
    ensures
        forall|v: A| #[trigger] s.filter(p).contains(v) <==> s.contains(v) && p(v),
        s.filter(p).len() <= s.len(),
    decreases s.len(),
{
    reveal(Seq::filter);
    if s.len() > 0 {
        let t = s.drop_last();
        let last = s.last();
        lemma_filter_elements(t, p);
        let f = t.filter(p);
        assert forall|v: A| #[trigger] s.filter(p).contains(v) <==> s.contains(v) && p(v) by {
            assert(s.contains(v) <==> t.contains(v) || v == last) by {
                if s.contains(v) {
                    let i = choose|i: int| 0 <= i < s.len() && s[i] == v;
                    if i < t.len() {
                        assert(t[i] == v);
                    }
                }
                if t.contains(v) {
                    let i = choose|i: int| 0 <= i < t.len() && t[i] == v;
                    assert(s[i] == v);
                }
                assert(s[s.len() - 1] == last);
            }
            if p(last) {
                let g = f.push(last);
                assert(g.contains(v) <==> f.contains(v) || v == last) by {
                    if g.contains(v) {
                        let i = choose|i: int| 0 <= i < g.len() && g[i] == v;
                        if i < f.len() {
                            assert(f[i] == v);
                        }
                    }
                    if f.contains(v) {
                        let i = choose|i: int| 0 <= i < f.len() && f[i] == v;
                        assert(g[i] == v);
                    }
                    assert(g[f.len() as int] == last);
                }
            }
        }
    }
}

/// Two places where the condition holds are counted twice.
pub proof fn lemma_filter_two<A>(s: Seq<A>, p: spec_fn(A) -> bool, i: int, j: int)
    requires
        0 <= i < j < s.len(),
        p(s[i]),
        p(s[j]),
    ensures
        s.filter(p).len() >= 2,
    decreases s.len(),
{
    reveal(Seq::filter);
    let t = s.drop_last();
    if j < s.len() - 1 {
        assert(t[i] == s[i] && t[j] == s[j]);
        lemma_filter_two(t, p, i, j);
    } else {
        assert(t[i] == s[i]);
        lemma_filter_elements(t, p);
        assert(t.contains(t[i]));
        assert(t.filter(p).contains(t[i]));
    }
}

/// A place where the condition holds is counted.
pub proof fn lemma_filter_one<A>(s: Seq<A>, p: spec_fn(A) -> bool, i: int)
    requires
        0 <= i < s.len(),
        p(s[i]),
    ensures
        s.filter(p).len() >= 1,
{
    lemma_filter_elements(s, p);
    assert(s.contains(s[i]));
    assert(s.filter(p).contains(s[i]));
}

/// Rows that rise by a number still rise after filtering.
pub proof fn lemma_filter_rises<A>(s: Seq<A>, p: spec_fn(A) -> bool, key: spec_fn(A) -> int)
    requires
        forall|i: int, j: int| 0 <= i < j < s.len() ==> key(#[trigger] s[i]) < key(#[trigger] s[j]),
    ensures
        forall|i: int, j: int|
            0 <= i < j < s.filter(p).len() ==> key(#[trigger] s.filter(p)[i]) < key(
                #[trigger] s.filter(p)[j],
            ),
    decreases s.len(),
{
    reveal(Seq::filter);
    if s.len() > 0 {
        let t = s.drop_last();
        assert forall|i: int, j: int| 0 <= i < j < t.len() implies key(#[trigger] t[i]) < key(
            #[trigger] t[j],
        ) by {
            assert(t[i] == s[i] && t[j] == s[j]);
        }
        lemma_filter_rises(t, p, key);
        lemma_filter_elements(t, p);
        let f = t.filter(p);
        let g = s.filter(p);
        assert forall|i: int, j: int| 0 <= i < j < g.len() implies key(#[trigger] g[i]) < key(
            #[trigger] g[j],
        ) by {
            if j < f.len() {
                assert(f[i] == g[i] && f[j] == g[j]);
            } else {
                assert(f.contains(f[i]));
                let k = choose|k: int| 0 <= k < t.len() && t[k] == f[i];
                assert(s[k] == f[i]);
                assert(key(s[k]) < key(s[s.len() - 1]));
            }
        }
    }
}

/// A condition that fails on all elements but one is counted once at most.
pub proof fn lemma_filter_at_most_one<A>(s: Seq<A>, p: spec_fn(A) -> bool, i: int)
    requires
        0 <= i < s.len(),
        forall|k: int| 0 <= k < s.len() && k != i ==> !p(#[trigger] s[k]),
    ensures
        s.filter(p).len() <= 1,
    decreases s.len(),
{
    reveal(Seq::filter);
    let t = s.drop_last();
    if i == s.len() - 1 {
        lemma_filter_elements(t, p);
        let f = t.filter(p);
        if f.len() > 0 {
            assert(f.contains(f[0]));
            let k = choose|k: int| 0 <= k < t.len() && t[k] == f[0];
            assert(s[k] == f[0]);
        }
    } else {
        assert forall|k: int| 0 <= k < t.len() && k != i implies !p(#[trigger] t[k]) by {
            assert(t[k] == s[k]);
        }
        lemma_filter_at_most_one(t, p, i);
        assert(!p(s[s.len() - 1]));
    }
}

/// A condition that fails on every element counts none.
pub proof fn lemma_filter_none<A>(s: Seq<A>, p: spec_fn(A) -> bool)
    requires
        forall|k: int| 0 <= k < s.len() ==> !p(#[trigger] s[k]),
    ensures
        s.filter(p).len() == 0,
{
    lemma_filter_elements(s, p);
    let f = s.filter(p);
    if f.len() > 0 {
        assert(f.contains(f[0]));
    }
}

/// Conditions that agree on the elements keep the same ones.
pub proof fn lemma_filter_same<A>(s: Seq<A>, p: spec_fn(A) -> bool, q: spec_fn(A) -> bool)
    requires
        forall|i: int| 0 <= i < s.len() ==> p(#[trigger] s[i]) == q(s[i]),
    ensures
        s.filter(p) == s.filter(q),
    decreases s.len(),
{
    reveal(Seq::filter);
    if s.len() > 0 {
        let t = s.drop_last();
        assert forall|i: int| 0 <= i < t.len() implies p(#[trigger] t[i]) == q(t[i]) by {
            assert(t[i] == s[i]);
        }
        lemma_filter_same(t, p, q);
        assert(p(s[s.len() - 1]) == q(s[s.len() - 1]));
    }
}

/// Of two opposite conditions one or the other holds of each element.
pub proof fn lemma_filter_opposite<A>(s: Seq<A>, p: spec_fn(A) -> bool, q: spec_fn(A) -> bool)
    requires
        forall|i: int| 0 <= i < s.len() ==> p(#[trigger] s[i]) == !q(s[i]),
    ensures
        s.filter(p).len() + s.filter(q).len() == s.len(),
    decreases s.len(),
{
    reveal(Seq::filter);
    if s.len() > 0 {
        let t = s.drop_last();
        assert forall|i: int| 0 <= i < t.len() implies p(#[trigger] t[i]) == !q(t[i]) by {
            assert(t[i] == s[i]);
        }
        lemma_filter_opposite(t, p, q);
        assert(p(s[s.len() - 1]) == !q(s[s.len() - 1]));
    }
}

} // verus!
