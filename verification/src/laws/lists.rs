//! Laws of the lists: which rows they have, and in which order.

use crate::rows::{ClipRow, TodoRow};
use crate::store::clips::needs_ranking;
use crate::store::Store;
use vstd::prelude::*;

verus! {

/// Whether a list of clips has the pinned ones first, and within these and the others the latest
/// first, and of equal times the one that came first.
pub open spec fn clips_in_order(list: Seq<ClipRow>) -> bool {
    forall|i: int, j: int|
        0 <= i < j < list.len() ==> {
            let a = #[trigger] list[i];
            let b = #[trigger] list[j];
            &&& b.pinned ==> a.pinned
            &&& a.pinned == b.pinned ==> a.ts >= b.ts
            &&& a.pinned == b.pinned && a.ts == b.ts ==> a.id < b.id
        }
}

proof fn lemma_clips_listed(
    clips: Seq<crate::rows::ClipView>,
    keep: spec_fn(crate::rows::ClipView) -> bool,
    list: Seq<ClipRow>,
)
    requires
        crate::rows::clip_ids_rise(clips),
        crate::order::row_views(list) == crate::order::listing(
            clips,
            keep,
            crate::rows::clip_order(),
        ),
    ensures
        clips_in_order(list),
        forall|c: crate::rows::ClipView| #[trigger]
            crate::order::row_views(list).contains(c) <==> clips.contains(c) && keep(c),
{
    let order = crate::rows::clip_order();
    let views = crate::order::row_views(list);
    crate::rows::lemma_clip_order(clips);
    crate::order::lemma_listing(clips, keep, order);
    assert forall|i: int, j: int| 0 <= i < j < list.len() implies {
        let a = #[trigger] list[i];
        let b = #[trigger] list[j];
        &&& b.pinned ==> a.pinned
        &&& a.pinned == b.pinned ==> a.ts >= b.ts
        &&& a.pinned == b.pinned && a.ts == b.ts ==> a.id < b.id
    } by {
        assert(order(views[i], views[j]));
        assert(views[i] == list[i]@ && views[j] == list[j]@);
    }
}

/// Without a query and a limit, every clip is listed, in order.
pub proof fn law_all_clips_listed(
    s: &Store,
    query: &str,
    limit: i64,
    ranked: &Vec<i64>,
    res: Vec<ClipRow>,
)
    requires
        s.wf(),
        call_ensures(Store::search, (s, query, limit, ranked), res),
        query@.len() == 0,
        limit < 0,
    ensures
        clips_in_order(res@),
        forall|c: crate::rows::ClipView| #[trigger]
            crate::order::row_views(res@).contains(c) <==> s@.clips.contains(c),
{
    s.lemma_valid();
    lemma_clips_listed(s@.clips, crate::store::clips::any_clip(), res@);
}

/// A query of one or two characters lists, in order, the clips whose text has it in it, with the
/// letters of ASCII in either case. A text counts as far as its first NUL.
pub proof fn law_short_query_listed(
    s: &Store,
    query: &str,
    limit: i64,
    ranked: &Vec<i64>,
    res: Vec<ClipRow>,
    c: crate::rows::ClipView,
)
    requires
        s.wf(),
        call_ensures(Store::search, (s, query, limit, ranked), res),
        query@.len() == 1 || query@.len() == 2,
        !query@.contains('\0'),
        limit < 0,
    ensures
        clips_in_order(res@),
        crate::order::row_views(res@).contains(c) ==> s@.clips.contains(c) && c.text is Some,
        s@.clips.contains(c) && c.text is Some ==> (crate::order::row_views(res@).contains(c)
            <==> exists|k: int| #[trigger]
            reads_at(crate::like::c_str(c.text->0), query@, k)),
{
    s.lemma_valid();
    lemma_clips_listed(s@.clips, crate::store::clips::text_contains(query@), res@);
    if s@.clips.contains(c) && c.text is Some {
        let t = c.text->0;
        crate::like::law_containing(query@, t);
        lemma_reads(crate::like::c_str(t), query@);
    }
}

/// A query of two characters whose second is NUL lists the clips whose text ends in the first; one
/// that starts with NUL lists every clip with a text.
pub proof fn law_query_with_nul(
    s: &Store,
    query: &str,
    limit: i64,
    ranked: &Vec<i64>,
    res: Vec<ClipRow>,
    c: crate::rows::ClipView,
)
    requires
        s.wf(),
        call_ensures(Store::search, (s, query, limit, ranked), res),
        query@.len() == 1 || query@.len() == 2,
        query@.contains('\0'),
        limit < 0,
    ensures
        query@[0] == '\0' ==> (crate::order::row_views(res@).contains(c) <==> s@.clips.contains(c)
            && c.text is Some),
        query@[0] != '\0' ==> (crate::order::row_views(res@).contains(c) <==> s@.clips.contains(c)
            && c.text is Some && {
            let t = crate::like::c_str(c.text->0);
            t.len() > 0 && alike(t.last(), query@[0])
        }),
{
    s.lemma_valid();
    lemma_clips_listed(s@.clips, crate::store::clips::text_contains(query@), res@);
    if c.text is Some {
        let q = query@;
        let esc = Some('\\');
        let t = crate::like::c_str(c.text->0);
        let pat = crate::like::containing(q);
        reveal_with_fuel(crate::like::escaped, 3);
        let first = if q[0] == '\\' || q[0] == '%' || q[0] == '_' {
            seq!['\\', q[0]]
        } else {
            seq![q[0]]
        };
        if q.len() == 1 {
            assert(q.drop_last() =~= seq![]);
            assert(crate::like::escaped(q) =~= seq!['\0']);
        } else {
            assert(q.drop_last() =~= seq![q[0]]);
            assert(seq![q[0]].drop_last() =~= seq![]);
            assert(crate::like::escaped(seq![q[0]]) =~= first);
        }
        if q[0] == '\0' {
            let more = pat.skip(2);
            assert(pat =~= seq!['%'] + seq!['\0'] + more);
            assert(!seq!['%'].contains('\0'));
            crate::laws::numbers::law_cut_at_nul(seq!['%'], more);
            crate::like::lemma_any(t, esc);
        } else {
            assert(q[1] == '\0');
            let more = seq!['%'];
            assert(pat =~= (seq!['%'] + first) + seq!['\0'] + more);
            assert(!(seq!['%'] + first).contains('\0'));
            crate::laws::numbers::law_cut_at_nul(seq!['%'] + first, more);
            crate::like::lemma_suffix(first, t, esc);
            assert forall|i: int| 0 <= i <= t.len() implies (crate::like::like(
                first,
                #[trigger] t.skip(i),
                esc,
            ) <==> i == t.len() - 1 && alike(t.last(), q[0])) by {
                lemma_one_char(q[0], t.skip(i));
                if i == t.len() - 1 {
                    assert(t.skip(i)[0] == t.last());
                }
            }
            if t.len() > 0 && alike(t.last(), q[0]) {
                assert(crate::like::like(first, t.skip(t.len() - 1), esc));
            }
        }
    }
}

proof fn lemma_one_char(c: char, s: Seq<char>)
    ensures
        ({
            let p = if c == '\\' || c == '%' || c == '_' {
                seq!['\\', c]
            } else {
                seq![c]
            };
            crate::like::like(p, s, Some('\\')) <==> s.len() == 1 && alike(s[0], c)
        }),
{
    if s.len() > 0 {
        law_folded(s[0], c);
    }
    if c == '\\' || c == '%' || c == '_' {
        crate::laws::patterns::law_escaped_char('\\', c, s);
    } else {
        let p = seq![c];
        assert(p.drop_first() =~= seq![]);
        if s.len() > 0 {
            assert(crate::like::like(p.drop_first(), s.drop_first(), Some('\\')) <==> s.len()
                == 1);
        }
    }
}

/// Whether `q` stands in `t` at `k`, with characters that are compared as one taken for one.
pub open spec fn reads_at(t: Seq<char>, q: Seq<char>, k: int) -> bool {
    &&& 0 <= k <= t.len() - q.len()
    &&& forall|i: int| 0 <= i < q.len() ==> alike(t[k + i], #[trigger] q[i])
}

/// Whether two characters are compared as one: equal, the two cases of a letter of ASCII, or both
/// among the last three of the basic plane.
pub open spec fn alike(c: char, d: char) -> bool {
    ||| c == d
    ||| 0x41 <= c as u32 <= 0x5a && d as u32 == c as u32 + 32
    ||| 0x41 <= d as u32 <= 0x5a && c as u32 == d as u32 + 32
    ||| 0xfffd <= c as u32 <= 0xffff && 0xfffd <= d as u32 <= 0xffff
}

/// Characters are folded to one where they are compared as one.
pub proof fn law_folded(c: char, d: char)
    ensures
        crate::like::folded(c) == crate::like::folded(d) <==> alike(c, d),
{
}

proof fn lemma_reads(t: Seq<char>, q: Seq<char>)
    ensures
        crate::text::occurs(crate::like::folded_text(t), crate::like::folded_text(q))
            <==> exists|k: int| #[trigger] reads_at(t, q, k),
{
    let x = crate::like::folded_text(t);
    let y = crate::like::folded_text(q);
    if crate::text::occurs(x, y) {
        let k = choose|k: int| crate::text::occurs_at(x, y, k);
        assert forall|i: int| 0 <= i < q.len() implies alike(t[k + i], #[trigger] q[i]) by {
            assert(x.subrange(k, k + y.len())[i] == x[k + i]);
            assert(y[i] == crate::like::folded(q[i]));
            law_folded(t[k + i], q[i]);
        }
        assert(reads_at(t, q, k));
    }
    if exists|k: int| #[trigger] reads_at(t, q, k) {
        let k = choose|k: int| #[trigger] reads_at(t, q, k);
        assert forall|i: int| 0 <= i < q.len() implies x.subrange(k, k + y.len())[i] == y[i] by {
            assert(alike(t[k + i], q[i]));
            law_folded(t[k + i], q[i]);
        }
        assert(x.subrange(k, k + y.len()) =~= y);
        assert(crate::text::occurs_at(x, y, k));
    }
}

/// A limit cuts a list off behind that many clips and changes nothing else; below zero it does
/// not count.
pub proof fn law_limit(
    s: &Store,
    query: &str,
    limit: i64,
    none: i64,
    ranked: &Vec<i64>,
    res: Vec<ClipRow>,
    all: Vec<ClipRow>,
)
    requires
        s.wf(),
        none < 0,
        call_ensures(Store::search, (s, query, limit, ranked), res),
        call_ensures(Store::search, (s, query, none, ranked), all),
    ensures
        limit >= 0 ==> res@.len() == if limit < all@.len() {
            limit as int
        } else {
            all@.len() as int
        },
        limit < 0 ==> res@.len() == all@.len(),
        forall|i: int| 0 <= i < res@.len() ==> (#[trigger] res@[i])@ == all@[i]@,
{
    let x = crate::order::row_views(res@);
    let y = crate::order::row_views(all@);
    assert(x.len() == res@.len() && y.len() == all@.len());
    assert forall|i: int| 0 <= i < res@.len() implies (#[trigger] res@[i])@ == all@[i]@ by {
        assert(x[i] == res@[i]@);
        assert(y[i] == all@[i]@);
    }
}

/// Where no limit is asked for, it is 500.
pub proof fn law_default_limit(
    s: &Store,
    query: &str,
    limit: Option<i64>,
    n: i64,
    ranked: &Vec<i64>,
    res: Vec<ClipRow>,
    all: Vec<ClipRow>,
)
    requires
        s.wf(),
        n == match limit {
            Some(n) => n,
            None => 500,
        },
        call_ensures(crate::commands::search, (s, query, limit, ranked), res),
        call_ensures(Store::search, (s, query, n, ranked), all),
    ensures
        crate::order::row_views(res@) == crate::order::row_views(all@),
{
}

/// Of a longer query, the list has the clips that the full-text index ranked: all of them and no
/// others, the pinned ones first, and in the order of the ranking among those that are pinned
/// alike.
pub proof fn law_ranked_query_listed(
    s: &Store,
    query: &str,
    limit: i64,
    ranked: &Vec<i64>,
    res: Vec<ClipRow>,
)
    requires
        s.wf(),
        call_ensures(Store::search, (s, query, limit, ranked), res),
        query@.len() >= 3,
        limit < 0,
    ensures
        forall|i: int, j: int|
            0 <= i < j < res@.len() && #[trigger] res@[j].pinned ==> #[trigger] res@[i].pinned,
        forall|i: int|
            0 <= i < res@.len() ==> s@.clips.contains((#[trigger] res@[i])@) && ranked@.contains(
                res@[i].id,
            ),
        forall|k: int, r: int|
            0 <= k < s@.clips.len() && 0 <= r < ranked@.len() && #[trigger] s@.clips[k].id
                == #[trigger] ranked@[r] ==> crate::order::row_views(res@).contains(s@.clips[k]),
        forall|r: int, q: int, a: crate::rows::ClipView, b: crate::rows::ClipView|
            r < q && #[trigger] ranks(s@.clips, ranked@, r, a) && #[trigger] ranks(
                s@.clips,
                ranked@,
                q,
                b,
            ) && a.pinned == b.pinned ==> stands_before(crate::order::row_views(res@), a, b),
{
    s.lemma_valid();
    let clips = s@.clips;
    let views = crate::order::row_views(res@);
    let h = crate::store::clips::hits(clips, ranked@);
    let yes = crate::store::clips::with_pin(true);
    let no = crate::store::clips::with_pin(false);
    crate::store::laws::law_ranked_query(clips, query@, ranked@);
    assert forall|i: int| 0 <= i < res@.len() implies res@[i]@ == #[trigger] views[i] by {}
    assert forall|i: int, j: int|
        0 <= i < j < res@.len() && #[trigger] res@[j].pinned implies #[trigger] res@[i].pinned by {
        assert(views[i].pinned == res@[i].pinned);
        assert(views[j].pinned == res@[j].pinned);
    }
    assert forall|i: int| 0 <= i < res@.len() implies s@.clips.contains((#[trigger] res@[i])@)
        && ranked@.contains(res@[i].id) by {
        assert(views[i].id == res@[i].id);
    }
    assert forall|k: int, r: int|
        0 <= k < clips.len() && 0 <= r < ranked@.len() && #[trigger] clips[k].id
            == #[trigger] ranked@[r] implies views.contains(clips[k]) by {
        crate::laws::history::lemma_clip_found(clips, k);
        lemma_hit(clips, ranked@, r, clips[k]);
        lemma_split_contains(h, clips[k]);
    }
    assert forall|r: int, q: int, a: crate::rows::ClipView, b: crate::rows::ClipView|
        r < q && #[trigger] ranks(clips, ranked@, r, a) && #[trigger] ranks(clips, ranked@, q, b)
            && a.pinned == b.pinned implies stands_before(views, a, b) by {
        let i = choose|i: int| 0 <= i < clips.len() && clips[i] == a;
        let j = choose|j: int| 0 <= j < clips.len() && clips[j] == b;
        crate::laws::history::lemma_clip_found(clips, i);
        crate::laws::history::lemma_clip_found(clips, j);
        lemma_hits_in_order(clips, ranked@, r, q, a, b);
        lemma_split_order(h, a, b);
    }
}

/// The ranking of the full-text index is needed for queries of three characters or more.
pub proof fn law_ranking_needed(query: &str, res: bool)
    requires
        call_ensures(needs_ranking, (query,), res),
    ensures
        query@.len() == 0 || query@.len() == 1 || query@.len() == 2 ==> !res,
        query@.len() >= 3 ==> res,
{
}

/// The ranking does not matter to queries that do not need it.
pub proof fn law_ranking_ignored(
    s: &Store,
    query: &str,
    limit: i64,
    a: &Vec<i64>,
    b: &Vec<i64>,
    x: Vec<ClipRow>,
    y: Vec<ClipRow>,
)
    requires
        s.wf(),
        call_ensures(needs_ranking, (query,), false),
        call_ensures(Store::search, (s, query, limit, a), x),
        call_ensures(Store::search, (s, query, limit, b), y),
    ensures
        crate::order::row_views(x@) == crate::order::row_views(y@),
{
}

/// Whether the place `r` of a ranking has the clip `c`.
pub open spec fn ranks(
    clips: Seq<crate::rows::ClipView>,
    ids: Seq<i64>,
    r: int,
    c: crate::rows::ClipView,
) -> bool {
    0 <= r < ids.len() && clips.contains(c) && c.id == ids[r]
}

/// Whether `a` stands somewhere in the list before a place where `b` stands.
pub open spec fn stands_before(
    list: Seq<crate::rows::ClipView>,
    a: crate::rows::ClipView,
    b: crate::rows::ClipView,
) -> bool {
    exists|i: int, j: int|
        0 <= i < j < list.len() && #[trigger] list[i] == a && #[trigger] list[j] == b
}

proof fn lemma_hit(
    clips: Seq<crate::rows::ClipView>,
    ids: Seq<i64>,
    r: int,
    c: crate::rows::ClipView,
)
    requires
        0 <= r < ids.len(),
        crate::store::clips::clip_at(clips, ids[r]) == Some(c),
    ensures
        crate::store::clips::hits(clips, ids).contains(c),
    decreases ids.len(),
{
    let h = crate::store::clips::hits(clips, ids);
    let rest = crate::store::clips::hits(clips, ids.drop_last());
    if r < ids.len() - 1 {
        lemma_hit(clips, ids.drop_last(), r, c);
        let k = choose|k: int| 0 <= k < rest.len() && rest[k] == c;
        assert(h[k] == c);
    } else {
        assert(h[h.len() - 1] == c);
    }
}

proof fn lemma_hits_in_order(
    clips: Seq<crate::rows::ClipView>,
    ids: Seq<i64>,
    r: int,
    q: int,
    a: crate::rows::ClipView,
    b: crate::rows::ClipView,
)
    requires
        0 <= r < q < ids.len(),
        crate::store::clips::clip_at(clips, ids[r]) == Some(a),
        crate::store::clips::clip_at(clips, ids[q]) == Some(b),
    ensures
        stands_before(crate::store::clips::hits(clips, ids), a, b),
    decreases ids.len(),
{
    let h = crate::store::clips::hits(clips, ids);
    let rest = crate::store::clips::hits(clips, ids.drop_last());
    if q < ids.len() - 1 {
        lemma_hits_in_order(clips, ids.drop_last(), r, q, a, b);
        let (i, j) = choose|i: int, j: int|
            0 <= i < j < rest.len() && #[trigger] rest[i] == a && #[trigger] rest[j] == b;
        assert(h[i] == a && h[j] == b);
    } else {
        lemma_hit(clips, ids.drop_last(), r, a);
        let i = choose|i: int| 0 <= i < rest.len() && rest[i] == a;
        assert(h[i] == a && h[h.len() - 1] == b);
    }
}

proof fn lemma_split_contains(h: Seq<crate::rows::ClipView>, c: crate::rows::ClipView)
    requires
        h.contains(c),
    ensures
        (h.filter(crate::store::clips::with_pin(true)) + h.filter(
            crate::store::clips::with_pin(false),
        )).contains(c),
{
    let x = h.filter(crate::store::clips::with_pin(true));
    let y = h.filter(crate::store::clips::with_pin(false));
    crate::seqs::lemma_filter_elements(h, crate::store::clips::with_pin(true));
    crate::seqs::lemma_filter_elements(h, crate::store::clips::with_pin(false));
    if c.pinned {
        assert(x.contains(c));
        let k = choose|k: int| 0 <= k < x.len() && x[k] == c;
        assert((x + y)[k] == c);
    } else {
        assert(y.contains(c));
        let k = choose|k: int| 0 <= k < y.len() && y[k] == c;
        assert((x + y)[x.len() + k] == c);
    }
}

proof fn lemma_filter_order(
    h: Seq<crate::rows::ClipView>,
    keep: spec_fn(crate::rows::ClipView) -> bool,
    a: crate::rows::ClipView,
    b: crate::rows::ClipView,
)
    requires
        stands_before(h, a, b),
        keep(a),
        keep(b),
    ensures
        stands_before(h.filter(keep), a, b),
    decreases h.len(),
{
    reveal(Seq::filter);
    let (i, j) = choose|i: int, j: int|
        0 <= i < j < h.len() && #[trigger] h[i] == a && #[trigger] h[j] == b;
    let g = h.drop_last();
    let f = h.filter(keep);
    let e = g.filter(keep);
    if j < h.len() - 1 {
        assert(g[i] == a && g[j] == b);
        lemma_filter_order(g, keep, a, b);
        let (x, y) = choose|x: int, y: int|
            0 <= x < y < e.len() && #[trigger] e[x] == a && #[trigger] e[y] == b;
        assert(f[x] == a && f[y] == b);
    } else {
        crate::seqs::lemma_filter_elements(g, keep);
        assert(g[i] == a);
        assert(g.contains(a));
        assert(e.contains(a));
        let x = choose|x: int| 0 <= x < e.len() && e[x] == a;
        assert(f[x] == a && f[f.len() - 1] == b);
    }
}

proof fn lemma_split_order(
    h: Seq<crate::rows::ClipView>,
    a: crate::rows::ClipView,
    b: crate::rows::ClipView,
)
    requires
        stands_before(h, a, b),
        a.pinned == b.pinned,
    ensures
        stands_before(
            h.filter(crate::store::clips::with_pin(true)) + h.filter(
                crate::store::clips::with_pin(false),
            ),
            a,
            b,
        ),
{
    let x = h.filter(crate::store::clips::with_pin(true));
    let y = h.filter(crate::store::clips::with_pin(false));
    if a.pinned {
        lemma_filter_order(h, crate::store::clips::with_pin(true), a, b);
        let (i, j) = choose|i: int, j: int|
            0 <= i < j < x.len() && #[trigger] x[i] == a && #[trigger] x[j] == b;
        assert((x + y)[i] == a && (x + y)[j] == b);
    } else {
        lemma_filter_order(h, crate::store::clips::with_pin(false), a, b);
        let (i, j) = choose|i: int, j: int|
            0 <= i < j < y.len() && #[trigger] y[i] == a && #[trigger] y[j] == b;
        assert((x + y)[x.len() + i] == a && (x + y)[x.len() + j] == b);
    }
}

/// Whether a list of todos has the pinned ones first, within these and the others the open ones
/// first, within these the higher priority first, within these the ones with a due date first and
/// the earlier date before the later, within these the latest first, and of equal times the one
/// that came first.
pub open spec fn todos_in_order(list: Seq<TodoRow>) -> bool {
    forall|i: int, j: int|
        0 <= i < j < list.len() ==> in_turn(#[trigger] list[i], #[trigger] list[j])
}

/// What holds of a todo and one that is listed behind it.
pub open spec fn in_turn(a: TodoRow, b: TodoRow) -> bool {
    &&& b.pinned ==> a.pinned
    &&& a.pinned == b.pinned ==> (a.done ==> b.done)
    &&& a.pinned == b.pinned && a.done == b.done ==> a.priority >= b.priority
    &&& a.pinned == b.pinned && a.done == b.done && a.priority == b.priority ==> {
        &&& b.due_at is Some ==> a.due_at is Some && a.due_at->0 <= b.due_at->0
        &&& a.due_at == b.due_at ==> a.ts >= b.ts
        &&& a.due_at == b.due_at && a.ts == b.ts ==> a.id < b.id
    }
}

/// Of two todos in a list that agree in pin and completion, the one with the larger priority
/// stands first; pins come before that, then completion, and after it the due date, the time and
/// the id.
pub proof fn law_todos_in_order(
    s: &Store,
    filter: &str,
    tag: &str,
    include_done: bool,
    day: (i64, i64),
    res: Vec<TodoRow>,
)
    requires
        s.wf(),
        call_ensures(Store::todos_list_for_day, (s, filter, tag, include_done, day), res),
    ensures
        todos_in_order(res@),
        forall|i: int, j: int|
            0 <= i < j < res@.len() && (#[trigger] res@[i]).pinned == (#[trigger] res@[j]).pinned
                && res@[i].done == res@[j].done ==> res@[i].priority >= res@[j].priority,
{
    s.lemma_valid();
    let order = crate::rows::todo_order();
    let views = crate::order::row_views(res@);
    crate::rows::lemma_todo_order(s@.todos);
    crate::order::lemma_listing(
        s@.todos,
        crate::store::todos::shows(filter@, tag@, include_done, day),
        order,
    );
    assert forall|i: int, j: int| 0 <= i < j < res@.len() implies in_turn(
        #[trigger] res@[i],
        #[trigger] res@[j],
    ) by {
        assert(order(views[i], views[j]));
        assert(views[i] == res@[i]@ && views[j] == res@[j]@);
    }
}

/// Which todos a list has: those that its name stands for, among those with the tag where one is
/// given. The names are `all`, `done`, `today` (due from the start of the day to its end) and
/// `overdue` (open and due before the day); any other stands for the open ones, together with the
/// done ones where these are asked for. Tags that cannot be read are none.
pub proof fn law_todos_listed(
    s: &Store,
    filter: &str,
    tag: &str,
    include_done: bool,
    day: (i64, i64),
    res: Vec<TodoRow>,
    k: int,
)
    requires
        s.wf(),
        call_ensures(Store::todos_list_for_day, (s, filter, tag, include_done, day), res),
        0 <= k < s@.todos.len(),
    ensures
        ({
            let t = s@.todos[k];
            let tags = crate::json::json_strings(t.tags);
            let listed = crate::order::row_views(res@).contains(t);
            let chosen = tag@.len() == 0 || (tags is Some && tags->0.contains(tag@));
            &&& filter@ == "all"@ ==> (listed <==> chosen)
            &&& filter@ == "done"@ ==> (listed <==> chosen && t.done)
            &&& filter@ == "today"@ ==> (listed <==> chosen && (t.due_at matches Some(d) && day.0
                <= d < day.1))
            &&& filter@ == "overdue"@ ==> (listed <==> chosen && !t.done && (
            t.due_at matches Some(d) && d < day.0))
            &&& filter@ != "all"@ && filter@ != "done"@ && filter@ != "today"@ && filter@
                != "overdue"@ ==> (listed <==> chosen && (!t.done || include_done))
        }),
{
    s.lemma_valid();
    lemma_filters_differ();
    let shows = crate::store::todos::shows(filter@, tag@, include_done, day);
    crate::rows::lemma_todo_order(s@.todos);
    crate::order::lemma_listing(s@.todos, shows, crate::rows::todo_order());
    assert(s@.todos.contains(s@.todos[k]));
}

/// A todo whose tags were stored as a list has the tags of that list: where it is listed without a
/// tag, it is listed under a tag exactly if the list has that tag.
pub proof fn law_stored_tags_listed(
    s: &Store,
    filter: &str,
    tag: &str,
    include_done: bool,
    day: (i64, i64),
    res: Vec<TodoRow>,
    none: &str,
    all: Vec<TodoRow>,
    k: int,
    tags: Seq<Seq<char>>,
)
    requires
        s.wf(),
        call_ensures(Store::todos_list_for_day, (s, filter, tag, include_done, day), res),
        none@.len() == 0,
        call_ensures(Store::todos_list_for_day, (s, filter, none, include_done, day), all),
        0 <= k < s@.todos.len(),
        s@.todos[k].tags == crate::json::json_array(tags),
        tag@.len() > 0,
    ensures
        crate::order::row_views(res@).contains(s@.todos[k]) <==> crate::order::row_views(
            all@,
        ).contains(s@.todos[k]) && tags.contains(tag@),
{
    assert(crate::json::json_array(tags) == s@.todos[k].tags);
}

/// The four names are different words.
proof fn lemma_filters_differ()
    ensures
        "all"@ != "done"@,
        "all"@ != "today"@,
        "all"@ != "overdue"@,
        "done"@ != "today"@,
        "done"@ != "overdue"@,
        "today"@ != "overdue"@,
{
    reveal_strlit("all");
    reveal_strlit("done");
    reveal_strlit("today");
    reveal_strlit("overdue");
    assert("all"@[0] != "done"@[0]);
    assert("all"@[0] != "today"@[0]);
    assert("all"@[0] != "overdue"@[0]);
    assert("done"@[0] != "today"@[0]);
    assert("done"@[0] != "overdue"@[0]);
    assert("today"@[0] != "overdue"@[0]);
}

/// A list has no todo that the table does not have, and none twice. Where a tag is given, it has
/// none whose tags cannot be read.
pub proof fn law_only_todos_listed(
    s: &Store,
    filter: &str,
    tag: &str,
    include_done: bool,
    day: (i64, i64),
    res: Vec<TodoRow>,
)
    requires
        s.wf(),
        call_ensures(Store::todos_list_for_day, (s, filter, tag, include_done, day), res),
    ensures
        forall|i: int| 0 <= i < res@.len() ==> s@.todos.contains((#[trigger] res@[i])@),
        forall|i: int, j: int|
            0 <= i < j < res@.len() ==> (#[trigger] res@[i]).id != (#[trigger] res@[j]).id,
        tag@.len() > 0 ==> forall|i: int|
            0 <= i < res@.len() ==> crate::json::json_strings((#[trigger] res@[i]).tags@) is Some,
{
    s.lemma_valid();
    let order = crate::rows::todo_order();
    let views = crate::order::row_views(res@);
    let shows = crate::store::todos::shows(filter@, tag@, include_done, day);
    crate::rows::lemma_todo_order(s@.todos);
    crate::order::lemma_listing(s@.todos, shows, order);
    assert forall|i: int| 0 <= i < res@.len() implies s@.todos.contains((#[trigger] res@[i])@)
        && shows(res@[i]@) by {
        assert(views[i] == res@[i]@);
        assert(views.contains(views[i]));
    }
    assert forall|i: int, j: int| 0 <= i < j < res@.len() implies (#[trigger] res@[i]).id != (
    #[trigger] res@[j]).id by {
        assert(order(views[i], views[j]));
        assert(views[i] == res@[i]@ && views[j] == res@[j]@);
        let a = choose|a: int| 0 <= a < s@.todos.len() && s@.todos[a] == res@[i]@;
        let b = choose|b: int| 0 <= b < s@.todos.len() && s@.todos[b] == res@[j]@;
        if a < b {
            assert(s@.todos[a].id < s@.todos[b].id);
        }
        if b < a {
            assert(s@.todos[b].id < s@.todos[a].id);
        }
        assert(a != b);
    }
    if tag@.len() > 0 {
        assert forall|i: int| 0 <= i < res@.len() implies crate::json::json_strings(
            (#[trigger] res@[i]).tags@,
        ) is Some by {
            assert(shows(res@[i]@));
        }
    }
}

/// A list that is asked for without a name has the open todos; without a tag, it goes by none;
/// and done todos are left out unless they are asked for.
pub proof fn law_list_defaults(
    s: &Store,
    filter: &Option<String>,
    tag: &Option<String>,
    include_done: Option<bool>,
    day: (i64, i64),
    name: &str,
    word: &str,
    res: Vec<TodoRow>,
    same: Vec<TodoRow>,
)
    requires
        s.wf(),
        call_ensures(
            crate::commands::todos_list_for_day,
            (s, filter, tag, include_done, day),
            res,
        ),
        name@ == match *filter {
            Some(f) => f@,
            None => "open"@,
        },
        word@ == match *tag {
            Some(t) => t@,
            None => seq![],
        },
        call_ensures(
            Store::todos_list_for_day,
            (s, name, word, include_done == Some(true), day),
            same,
        ),
    ensures
        crate::order::row_views(res@) == crate::order::row_views(same@),
{
    reveal_strlit("");
    assert(""@ =~= seq![]);
}

/// The list of the current day is the list of some day that the local clock gives.
pub proof fn law_list_of_today(
    s: &Store,
    filter: &str,
    tag: &str,
    include_done: bool,
    res: Vec<TodoRow>,
)
    requires
        s.wf(),
        call_ensures(Store::todos_list, (s, filter, tag, include_done), res),
    ensures
        todos_in_order(res@),
        exists|day: (i64, i64)|
            crate::clock::is_local_day(day) && forall|same: Vec<TodoRow>| #[trigger]
                call_ensures(Store::todos_list_for_day, (s, filter, tag, include_done, day), same)
                    ==> crate::order::row_views(res@) == crate::order::row_views(same@),
{
    s.lemma_valid();
    let day = choose|day: (i64, i64)|
        crate::clock::is_local_day(day) && crate::order::row_views(res@)
            == #[trigger] crate::store::todos::listed_todos(
            s@.todos,
            filter@,
            tag@,
            include_done,
            day,
        );
    let order = crate::rows::todo_order();
    let views = crate::order::row_views(res@);
    crate::rows::lemma_todo_order(s@.todos);
    crate::order::lemma_listing(
        s@.todos,
        crate::store::todos::shows(filter@, tag@, include_done, day),
        order,
    );
    assert forall|i: int, j: int| 0 <= i < j < res@.len() implies in_turn(
        #[trigger] res@[i],
        #[trigger] res@[j],
    ) by {
        assert(order(views[i], views[j]));
        assert(views[i] == res@[i]@ && views[j] == res@[j]@);
    }
    assert(crate::clock::is_local_day(day));
}

/// The same of the list that is asked for with defaults.
pub proof fn law_list_of_today_with_defaults(
    s: &Store,
    filter: &Option<String>,
    tag: &Option<String>,
    include_done: Option<bool>,
    res: Vec<TodoRow>,
)
    requires
        s.wf(),
        call_ensures(crate::commands::todos_list, (s, filter, tag, include_done), res),
    ensures
        exists|day: (i64, i64)|
            crate::clock::is_local_day(day) && forall|same: Vec<TodoRow>| #[trigger]
                call_ensures(
                    crate::commands::todos_list_for_day,
                    (s, filter, tag, include_done, day),
                    same,
                ) ==> crate::order::row_views(res@) == crate::order::row_views(same@),
{
    let name = crate::commands::or_default(crate::rows::opt_view(*filter), "open"@);
    let word = crate::commands::or_default(crate::rows::opt_view(*tag), ""@);
    let done = crate::commands::is_asked(include_done);
    let day = choose|day: (i64, i64)|
        crate::clock::is_local_day(day) && crate::order::row_views(res@)
            == #[trigger] crate::store::todos::listed_todos(s@.todos, name, word, done, day);
    assert(crate::clock::is_local_day(day));
}

} // verus!
