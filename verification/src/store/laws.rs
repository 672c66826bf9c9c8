//! What holds of the store as a whole.

use super::{StoreError, StoreView};
use vstd::prelude::*;

verus! {

/// Whatever an event brings, the history stays in order: ids rise, and no two clips have the same
/// content address.
pub proof fn law_insert_keeps_order(
    v: StoreView,
    ev: crate::rows::EventView,
    html_on_disk: Option<Seq<u8>>,
)
    requires
        v.valid(),
    ensures
        super::clips::inserted(v, ev, html_on_disk) matches Ok((clips, _)) ==> (StoreView {
            clips,
            ..v
        }).valid(),
{
    if let Some(c) = crate::content::content(ev) {
        super::clips::lemma_hash_index(
            v.clips,
            crate::content::event_hash(ev, c, html_on_disk),
        );
    }
    if let Ok((clips, id)) = super::clips::inserted(v, ev, html_on_disk) {
        assert forall|i: int, j: int| 0 <= i < j < clips.len() implies (#[trigger] clips[i]).id < (
        #[trigger] clips[j]).id && clips[i].hash != clips[j].hash by {
            if j < v.clips.len() {
                assert(v.clips[i].id < v.clips[j].id);
                assert(v.clips[i].hash != v.clips[j].hash);
            } else {
                assert(clips[i] == v.clips[i]);
                if i < v.clips.len() - 1 {
                    assert(v.clips[i].id < v.clips[v.clips.len() - 1].id);
                }
            }
        }
    }
}

/// Pinning, touching and deleting clips keep the history in order.
pub proof fn law_changes_keep_order(
    v: StoreView,
    id: i64,
    ts: i64,
    keep: spec_fn(crate::rows::ClipView) -> bool,
)
    requires
        v.valid(),
    ensures
        (StoreView { clips: super::clips::pin_flipped(v.clips, id), ..v }).valid(),
        (StoreView { clips: super::clips::retimed(v.clips, id, ts), ..v }).valid(),
        (StoreView { clips: v.clips.filter(keep), ..v }).valid(),
{
    let p = super::clips::pin_flipped(v.clips, id);
    let r = super::clips::retimed(v.clips, id, ts);
    assert forall|i: int, j: int| 0 <= i < j < p.len() implies (#[trigger] p[i]).id < (
    #[trigger] p[j]).id && p[i].hash != p[j].hash by {
        assert(v.clips[i].id < v.clips[j].id && v.clips[i].hash != v.clips[j].hash);
    }
    assert forall|i: int, j: int| 0 <= i < j < r.len() implies (#[trigger] r[i]).id < (
    #[trigger] r[j]).id && r[i].hash != r[j].hash by {
        assert(v.clips[i].id < v.clips[j].id && v.clips[i].hash != v.clips[j].hash);
    }
    crate::rows::lemma_clips_filtered(v.clips, keep);
}

/// Content that the history knows makes no new clip: the clip that has its content address takes
/// the time of the event, and nothing else changes.
pub proof fn law_known_content(
    v: StoreView,
    ev: crate::rows::EventView,
    html_on_disk: Option<Seq<u8>>,
    k: int,
)
    requires
        v.valid(),
        crate::content::content(ev) is Some,
        0 <= k < v.clips.len(),
        v.clips[k].hash == crate::content::event_hash(
            ev,
            crate::content::content(ev)->0,
            html_on_disk,
        ),
    ensures
        super::clips::inserted(v, ev, html_on_disk) == Ok::<
            (Seq<crate::rows::ClipView>, i64),
            StoreError,
        >(
            (
                v.clips.update(k, crate::rows::ClipView { ts: ev.ts, ..v.clips[k] }),
                v.clips[k].id,
            ),
        ),
{
    let hash = v.clips[k].hash;
    super::clips::lemma_hash_index(v.clips, hash);
    let i = super::clips::hash_index(v.clips, hash)->0;
    if i < k {
        assert(v.clips[i].hash != v.clips[k].hash);
    }
    if k < i {
        assert(v.clips[k].hash != v.clips[i].hash);
    }
    let after = v.clips.update(k, crate::rows::ClipView { ts: ev.ts, ..v.clips[k] });
    assert forall|m: int| 0 <= m < v.clips.len() && m != k implies (#[trigger] v.clips[m]).id
        != v.clips[k].id by {
        if m < k {
            assert(v.clips[m].id < v.clips[k].id);
        } else {
            assert(v.clips[k].id < v.clips[m].id);
        }
    }
    assert(super::clips::retimed(v.clips, v.clips[k].id, ev.ts) =~= after);
}

/// The same content again makes no new clip, whatever happened to the history in between, as long
/// as the clip that holds it is still there: that clip takes the time of the second event, and
/// nothing else changes.
pub proof fn law_insert_twice(
    v: StoreView,
    ev: crate::rows::EventView,
    later: StoreView,
    again: crate::rows::EventView,
    html_on_disk: Option<Seq<u8>>,
    k: int,
)
    requires
        v.valid(),
        later.valid(),
        crate::content::content(ev) is Some,
        again == (crate::rows::EventView { seq: again.seq, ts: again.ts, ..ev }),
        super::clips::inserted(v, ev, html_on_disk) is Ok,
        0 <= k < later.clips.len(),
        super::clips::clip_at(
            super::clips::inserted(v, ev, html_on_disk)->Ok_0.0,
            super::clips::inserted(v, ev, html_on_disk)->Ok_0.1,
        ) matches Some(c) && later.clips[k].id == c.id && later.clips[k].hash == c.hash,
    ensures
        super::clips::inserted(later, again, html_on_disk) == Ok::<
            (Seq<crate::rows::ClipView>, i64),
            StoreError,
        >(
            (
                later.clips.update(
                    k,
                    crate::rows::ClipView { ts: again.ts, ..later.clips[k] },
                ),
                super::clips::inserted(v, ev, html_on_disk)->Ok_0.1,
            ),
        ),
{
    let c = crate::content::content(ev)->0;
    let hash = crate::content::event_hash(ev, c, html_on_disk);
    let (clips, id) = super::clips::inserted(v, ev, html_on_disk)->Ok_0;
    assert(crate::content::content(again) == Some(c));
    assert(crate::content::event_hash(again, c, html_on_disk) == hash);
    super::clips::lemma_hash_index(v.clips, hash);
    law_insert_keeps_order(v, ev, html_on_disk);
    let m = super::clips::clip_index(clips, id)->0;
    assert(0 <= m < clips.len() && clips[m].id == id);
    let n = match super::clips::hash_index(v.clips, hash) {
        Some(i) => i,
        None => clips.len() - 1,
    };
    assert(clips[n].id == id && clips[n].hash == hash);
    if m < n {
        assert(clips[m].id < clips[n].id);
    }
    if n < m {
        assert(clips[n].id < clips[m].id);
    }
    law_known_content(later, again, html_on_disk, k);
}

/// The list of clips has every clip once, pinned ones first, each group from the latest on.
pub proof fn law_list_order(clips: Seq<crate::rows::ClipView>, ranked: Seq<i64>)
    requires
        crate::rows::clip_ids_rise(clips),
    ensures
        ({
            let list = super::clips::found(clips, seq![], ranked);
            &&& forall|c: crate::rows::ClipView| #[trigger]
                list.contains(c) <==> clips.contains(c)
            &&& forall|i: int, j: int|
                0 <= i < j < list.len() ==> {
                    &&& #[trigger] list[j].pinned ==> #[trigger] list[i].pinned
                    &&& list[i].pinned == list[j].pinned ==> list[i].ts >= list[j].ts
                }
        }),
{
    let keep = super::clips::any_clip();
    let order = crate::rows::clip_order();
    crate::rows::lemma_clip_order(clips);
    crate::order::lemma_listing(clips, keep, order);
    let list = super::clips::found(clips, seq![], ranked);
    assert forall|c: crate::rows::ClipView| #[trigger] list.contains(c) <==> clips.contains(c) by {
        assert(keep(c));
    }
    assert forall|i: int, j: int| 0 <= i < j < list.len() implies {
        &&& #[trigger] list[j].pinned ==> #[trigger] list[i].pinned
        &&& list[i].pinned == list[j].pinned ==> list[i].ts >= list[j].ts
    } by {
        assert(order(list[i], list[j]));
    }
}

/// A query of one or two characters finds exactly the clips whose text contains it, with ASCII
/// letters in either case.
pub proof fn law_short_query(
    clips: Seq<crate::rows::ClipView>,
    query: Seq<char>,
    ranked: Seq<i64>,
    c: crate::rows::ClipView,
)
    requires
        crate::rows::clip_ids_rise(clips),
        0 < query.len() < 3,
        !query.contains('\0'),
    ensures
        super::clips::found(clips, query, ranked).contains(c) <==> clips.contains(c) && c.text is Some
            && crate::text::occurs(
            crate::like::folded_text(crate::like::c_str(c.text->0)),
            crate::like::folded_text(query),
        ),
{
    let keep = super::clips::text_contains(query);
    crate::rows::lemma_clip_order(clips);
    crate::order::lemma_listing(clips, keep, crate::rows::clip_order());
    if c.text is Some {
        crate::like::law_containing(query, c.text->0);
    }
    assert(super::clips::found(clips, query, ranked).contains(c) <==> clips.contains(c) && keep(c));
}

/// A search by the full-text index lists pinned hits before the others, and finds only clips that
/// the index ranked.
pub proof fn law_ranked_query(
    clips: Seq<crate::rows::ClipView>,
    query: Seq<char>,
    ranked: Seq<i64>,
)
    requires
        query.len() >= 3,
    ensures
        ({
            let list = super::clips::found(clips, query, ranked);
            &&& forall|i: int, j: int|
                0 <= i < j < list.len() && #[trigger] list[j].pinned ==> #[trigger] list[i].pinned
            &&& forall|i: int|
                0 <= i < list.len() ==> clips.contains(#[trigger] list[i]) && ranked.contains(
                    list[i].id,
                )
        }),
{
    let h = super::clips::hits(clips, ranked);
    lemma_hits(clips, ranked);
    let top = super::clips::with_pin(true);
    let rest = super::clips::with_pin(false);
    crate::seqs::lemma_filter_elements(h, top);
    crate::seqs::lemma_filter_elements(h, rest);
    let a = h.filter(top);
    let b = h.filter(rest);
    let list = super::clips::found(clips, query, ranked);
    assert(list == a + b);
    assert forall|i: int| 0 <= i < list.len() implies #[trigger] list[i].pinned == (i < a.len())
        && h.contains(list[i]) by {
        if i < a.len() {
            assert(a.contains(a[i]));
        } else {
            assert(b.contains(b[i - a.len()]));
        }
    }
    assert forall|i: int| 0 <= i < list.len() implies clips.contains(#[trigger] list[i])
        && ranked.contains(list[i].id) by {
        assert(list[i].pinned == (i < a.len()));
        let k = choose|k: int| 0 <= k < h.len() && h[k] == list[i];
    }
}

proof fn lemma_hits(clips: Seq<crate::rows::ClipView>, ids: Seq<i64>)
    ensures
        forall|i: int|
            0 <= i < super::clips::hits(clips, ids).len() ==> clips.contains(
                #[trigger] super::clips::hits(clips, ids)[i],
            ) && ids.contains(super::clips::hits(clips, ids)[i].id),
    decreases ids.len(),
{
    if ids.len() > 0 {
        let init = ids.drop_last();
        lemma_hits(clips, init);
        let h = super::clips::hits(clips, ids);
        let h0 = super::clips::hits(clips, init);
        assert forall|i: int| 0 <= i < h.len() implies clips.contains(#[trigger] h[i])
            && ids.contains(h[i].id) by {
            if i < h0.len() {
                assert(h[i] == h0[i]);
                let k = choose|k: int| 0 <= k < init.len() && init[k] == h0[i].id;
                assert(ids[k] == h[i].id);
            } else {
                assert(ids[ids.len() - 1] == ids.last());
            }
        }
    }
}

/// A clip that is touched later than all the others comes first among those that are pinned as
/// it is.
pub proof fn law_touched_comes_first(
    clips: Seq<crate::rows::ClipView>,
    k: int,
    now: i64,
    ranked: Seq<i64>,
)
    requires
        crate::rows::clip_ids_rise(clips),
        0 <= k < clips.len(),
        forall|i: int| 0 <= i < clips.len() && i != k ==> (#[trigger] clips[i]).ts < now,
    ensures
        ({
            let list = super::clips::found(
                super::clips::retimed(clips, clips[k].id, now),
                seq![],
                ranked,
            );
            exists|p: int|
                0 <= p < list.len() && (#[trigger] list[p]).id == clips[k].id && forall|q: int|
                    0 <= q < list.len() && q != p && (#[trigger] list[q]).pinned == list[p].pinned
                        ==> p < q
        }),
{
    let id = clips[k].id;
    let after = super::clips::retimed(clips, id, now);
    assert forall|i: int, j: int| 0 <= i < j < after.len() implies (#[trigger] after[i]).id < (
    #[trigger] after[j]).id by {
        assert(clips[i].id < clips[j].id);
    }
    law_list_order(after, ranked);
    crate::rows::lemma_clip_order(after);
    crate::order::lemma_listing(after, super::clips::any_clip(), crate::rows::clip_order());
    let list = super::clips::found(after, seq![], ranked);
    let c = after[k];
    assert(after.contains(c));
    assert(list.contains(c));
    let p = choose|p: int| 0 <= p < list.len() && list[p] == c;
    assert forall|q: int|
        0 <= q < list.len() && q != p && (#[trigger] list[q]).pinned == list[p].pinned implies p
        < q by {
        if q < p {
            assert(crate::rows::clip_before(list[q], list[p])) by {
                assert(crate::rows::clip_order()(list[q], list[p]));
            }
            assert(list.contains(list[q]));
            let m = choose|m: int| 0 <= m < after.len() && after[m] == list[q];
            if m != k {
                if m < k {
                    assert(clips[m].id < clips[k].id);
                } else {
                    assert(clips[k].id < clips[m].id);
                }
                assert(clips[m].ts < now);
            }
        }
    }
    assert(list[p].id == id);
}

/// A clip that is later than all the others comes first among those that are pinned as it is.
pub proof fn law_latest_comes_first(clips: Seq<crate::rows::ClipView>, k: int, ranked: Seq<i64>)
    requires
        crate::rows::clip_ids_rise(clips),
        0 <= k < clips.len(),
        forall|i: int| 0 <= i < clips.len() && i != k ==> (#[trigger] clips[i]).ts < clips[k].ts,
    ensures
        ({
            let list = super::clips::found(clips, seq![], ranked);
            exists|p: int|
                0 <= p < list.len() && (#[trigger] list[p]).id == clips[k].id && forall|q: int|
                    0 <= q < list.len() && q != p && (#[trigger] list[q]).pinned == list[p].pinned
                        ==> p < q
        }),
{
    let id = clips[k].id;
    let same = super::clips::retimed(clips, id, clips[k].ts);
    assert forall|i: int| 0 <= i < clips.len() implies same[i] == clips[i] by {
        if i < k {
            assert(clips[i].id < clips[k].id);
        }
        if k < i {
            assert(clips[k].id < clips[i].id);
        }
    }
    assert(same =~= clips);
    law_touched_comes_first(clips, k, clips[k].ts, ranked);
}

/// The content of an event that is later than every clip comes first among the clips that are
/// pinned as its own is.
pub proof fn law_event_comes_first(
    v: StoreView,
    ev: crate::rows::EventView,
    html_on_disk: Option<Seq<u8>>,
    ranked: Seq<i64>,
)
    requires
        v.valid(),
        crate::content::content(ev) is Some,
        forall|i: int| 0 <= i < v.clips.len() ==> (#[trigger] v.clips[i]).ts < ev.ts,
    ensures
        super::clips::inserted(v, ev, html_on_disk) matches Ok((clips, id)) ==> {
            let list = super::clips::found(clips, seq![], ranked);
            exists|p: int|
                0 <= p < list.len() && (#[trigger] list[p]).id == id && forall|q: int|
                    0 <= q < list.len() && q != p && (#[trigger] list[q]).pinned == list[p].pinned
                        ==> p < q
        },
{
    let c = crate::content::content(ev)->0;
    let hash = crate::content::event_hash(ev, c, html_on_disk);
    super::clips::lemma_hash_index(v.clips, hash);
    if let Ok((clips, id)) = super::clips::inserted(v, ev, html_on_disk) {
        match super::clips::hash_index(v.clips, hash) {
            Some(i) => {
                law_touched_comes_first(v.clips, i, ev.ts, ranked);
            },
            None => {
                let k = clips.len() - 1;
                law_insert_keeps_order(v, ev, html_on_disk);
                assert forall|i: int| 0 <= i < clips.len() && i != k implies (
                #[trigger] clips[i]).ts < clips[k].ts by {
                    assert(clips[i] == v.clips[i]);
                }
                law_latest_comes_first(clips, k, ranked);
            },
        }
    }
}

/// Trimming to one clip or more never takes the latest one.
pub proof fn law_trim_spares_latest(clips: Seq<crate::rows::ClipView>, keep: i64, k: int)
    requires
        crate::rows::clip_ids_rise(clips),
        keep >= 1,
        0 <= k < clips.len(),
        forall|i: int| 0 <= i < clips.len() && i != k ==> (#[trigger] clips[i]).ts < clips[k].ts,
    ensures
        super::deletion::kept(clips, super::deletion::trim_victims(clips, keep)).contains(clips[k]),
{
    let pin = super::clips::with_pin(false);
    let order = crate::rows::clip_order();
    crate::rows::lemma_clip_order(clips);
    crate::order::lemma_listing(clips, pin, order);
    let loose = crate::order::listing(clips, pin, order);
    let victims = super::deletion::trim_victims(clips, keep);
    let c = clips[k];
    assert(clips.contains(c));
    assert(!victims.contains(c)) by {
        if victims.contains(c) {
            let j = choose|j: int| 0 <= j < victims.len() && victims[j] == c;
            assert(victims[j] == loose[j + keep]);
            assert(loose.contains(loose[0]));
            let m = choose|m: int| 0 <= m < clips.len() && clips[m] == loose[0];
            assert(order(loose[0], loose[j + keep]));
            if m != k {
                assert(clips[m].ts < clips[k].ts);
                assert(loose.contains(c));
                assert(pin(c) && pin(loose[0]));
            } else {
                assert(loose.contains(c));
                assert(!order(c, c));
            }
        }
    }
    crate::seqs::lemma_filter_elements(clips, super::deletion::not_among(victims));
}

/// Trimming and clearing keep every pinned clip.
pub proof fn law_pinned_stay(clips: Seq<crate::rows::ClipView>, keep: i64, c: crate::rows::ClipView)
    requires
        crate::rows::clip_ids_rise(clips),
        clips.contains(c),
        c.pinned,
    ensures
        super::deletion::kept(clips, super::deletion::trim_victims(clips, keep)).contains(c),
        clips.filter(super::clips::with_pin(true)).contains(c),
{
    let victims = super::deletion::trim_victims(clips, keep);
    super::deletion::lemma_victims(clips, keep);
    assert(!victims.contains(c)) by {
        if victims.contains(c) {
            let i = choose|i: int| 0 <= i < victims.len() && victims[i] == c;
            assert(!victims[i].pinned);
        }
    }
    crate::seqs::lemma_filter_elements(clips, super::deletion::not_among(victims));
    crate::seqs::lemma_filter_elements(clips, super::clips::with_pin(true));
}

/// Trimming keeps the latest clips: one that is not pinned and stays comes before every one that
/// goes, and no more than `keep` of them stay.
pub proof fn law_trim_keeps_latest(clips: Seq<crate::rows::ClipView>, keep: i64)
    requires
        crate::rows::clip_ids_rise(clips),
        keep >= 0,
    ensures
        ({
            let victims = super::deletion::trim_victims(clips, keep);
            let after = super::deletion::kept(clips, victims);
            &&& forall|c: crate::rows::ClipView, d: crate::rows::ClipView|
                #[trigger] after.contains(c) && !c.pinned && #[trigger] victims.contains(d)
                    ==> crate::rows::clip_before(c, d)
            &&& after.filter(super::clips::with_pin(false)).len() == if keep < clips.filter(
                super::clips::with_pin(false),
            ).len() {
                keep as int
            } else {
                clips.filter(super::clips::with_pin(false)).len() as int
            }
        }),
{
    let pin = super::clips::with_pin(false);
    let order = crate::rows::clip_order();
    crate::rows::lemma_clip_order(clips);
    crate::order::lemma_listing(clips, pin, order);
    let loose = crate::order::listing(clips, pin, order);
    let victims = super::deletion::trim_victims(clips, keep);
    let after = super::deletion::kept(clips, victims);
    let n = loose.len() - victims.len();
    assert(victims =~= loose.skip(n));
    crate::seqs::lemma_filter_elements(clips, super::deletion::not_among(victims));
    assert forall|c: crate::rows::ClipView, d: crate::rows::ClipView|
        #[trigger] after.contains(c) && !c.pinned && #[trigger] victims.contains(
            d,
        ) implies crate::rows::clip_before(c, d) by {
        assert(clips.contains(c) && pin(c));
        assert(loose.contains(c));
        let i = choose|i: int| 0 <= i < loose.len() && loose[i] == c;
        let j = choose|j: int| 0 <= j < victims.len() && victims[j] == d;
        assert(victims[j] == loose[j + n]);
        if i >= n {
            assert(victims[i - n] == c);
            assert(super::deletion::not_among(victims)(c));
        }
        assert(order(loose[i], loose[j + n]));
    }
    let stay = after.filter(pin);
    let both = |c: crate::rows::ClipView| super::deletion::not_among(victims)(c) && pin(c);
    crate::seqs::lemma_filter_twice(clips, super::deletion::not_among(victims), pin, both);
    lemma_ids_rise_filter(clips, both);
    lemma_ids_rise_filter(clips, pin);
    lemma_distinct(stay);
    lemma_distinct(clips.filter(pin));
    crate::seqs::lemma_filter_elements(clips, both);
    crate::seqs::lemma_filter_elements(clips, pin);
    let head = loose.take(n);
    assert forall|a: int, b: int| 0 <= a < b < loose.len() implies loose[a] != loose[b] by {
        assert(order(loose[a], loose[b]));
        assert(loose.contains(loose[a]));
        assert(!order(loose[a], loose[a]));
    }
    assert(loose.no_duplicates());
    assert(head.no_duplicates());
    assert forall|c: crate::rows::ClipView| #[trigger] stay.contains(c) <==> head.contains(c) by {
        if stay.contains(c) {
            assert(both(c));
            assert(clips.contains(c) && pin(c));
            assert(loose.contains(c));
            let i = choose|i: int| 0 <= i < loose.len() && loose[i] == c;
            if i >= n {
                assert(victims[i - n] == c);
            }
            assert(head[i] == c);
        }
        if head.contains(c) {
            let i = choose|i: int| 0 <= i < head.len() && head[i] == c;
            assert(loose[i] == c);
            assert(loose.contains(c));
            if victims.contains(c) {
                let j = choose|j: int| 0 <= j < victims.len() && victims[j] == c;
                assert(loose[j + n] == c);
            }
            assert(both(c));
        }
    }
    lemma_same_len(stay, head);
    assert forall|c: crate::rows::ClipView| #[trigger] clips.filter(pin).contains(c)
        <==> loose.contains(c) by {}
    lemma_same_len(clips.filter(pin), loose);
}

proof fn lemma_ids_rise_filter(
    clips: Seq<crate::rows::ClipView>,
    keep: spec_fn(crate::rows::ClipView) -> bool,
)
    requires
        crate::rows::clip_ids_rise(clips),
    ensures
        crate::rows::clip_ids_rise(clips.filter(keep)),
{
    crate::seqs::lemma_filter_rises(clips, keep, |c: crate::rows::ClipView| c.id as int);
}

proof fn lemma_distinct(clips: Seq<crate::rows::ClipView>)
    requires
        crate::rows::clip_ids_rise(clips),
    ensures
        clips.no_duplicates(),
{
    assert forall|i: int, j: int| 0 <= i < j < clips.len() implies clips[i] != clips[j] by {
        assert(clips[i].id < clips[j].id);
    }
}

/// Sequences without repetition that have the same elements are of one length.
pub proof fn lemma_same_len<A>(a: Seq<A>, b: Seq<A>)
    requires
        a.no_duplicates(),
        b.no_duplicates(),
        forall|v: A| #[trigger] a.contains(v) <==> b.contains(v),
    ensures
        a.len() == b.len(),
{
    a.unique_seq_to_set();
    b.unique_seq_to_set();
    assert forall|v: A| #[trigger] a.to_set().contains(v) == b.to_set().contains(v) by {
        assert(a.contains(v) <==> b.contains(v));
    }
    assert(a.to_set() =~= b.to_set());
}

/// A todo protects its image: while the todo has it, deleting, trimming or clearing clips does
/// not give the image up.
pub proof fn law_todo_protects_image(
    v: StoreView,
    k: int,
    c: crate::rows::ClipView,
    stems: super::deletion::Stems,
)
    requires
        0 <= k < v.todos.len(),
        v.todos[k].image_path is Some,
        !v.todos[k].image_path->0.contains('\0'),
        super::deletion::are_stems_of(c, stems),
    ensures
        !super::deletion::clip_files(v.clips, v.todos, c, stems, 0).contains(
            v.todos[k].image_path->0,
        ),
        v.clips.contains(c) ==> !super::deletion::clip_files(v.clips, v.todos, c, stems, 1).contains(
            v.todos[k].image_path->0,
        ),
{
    let f = v.todos[k].image_path->0;
    assert forall|most: nat|
        (most == 0 || most == 1 && v.clips.contains(c)) && #[trigger] super::deletion::clip_files(
            v.clips,
            v.todos,
            c,
            stems,
            most,
        ).contains(f) implies false by {
        let a = super::deletion::file_if_unreferenced(v.clips, v.todos, c.image_path, stems.0, most);
        let b = super::deletion::file_if_unreferenced(v.clips, v.todos, c.html_path, stems.1, most);
        let files = a + b;
        let i = choose|i: int| 0 <= i < files.len() && files[i] == f;
        let stem = if i < a.len() {
            stems.0->0
        } else {
            stems.1->0
        };
        super::blobs::lemma_refers_to_itself(f, stem);
        crate::seqs::lemma_filter_one(v.todos, super::blobs::todo_refers(stem), k);
        if v.clips.contains(c) {
            let m = choose|m: int| 0 <= m < v.clips.len() && v.clips[m] == c;
            assert(super::blobs::clip_refers(stem)(v.clips[m]));
            crate::seqs::lemma_filter_one(v.clips, super::blobs::clip_refers(stem), m);
        }
    }
}

/// Flipping a pin twice changes nothing, for a clip and for a todo.
pub proof fn law_pin_twice(
    clips: Seq<crate::rows::ClipView>,
    todos: Seq<crate::rows::TodoView>,
    id: i64,
)
    ensures
        super::clips::pin_flipped(super::clips::pin_flipped(clips, id), id) == clips,
        super::todos::amended(
            super::todos::amended(todos, id, super::todos::repinned()),
            id,
            super::todos::repinned(),
        ) == todos,
{
    assert(super::clips::pin_flipped(super::clips::pin_flipped(clips, id), id) =~= clips);
    let twice = super::todos::amended(
        super::todos::amended(todos, id, super::todos::repinned()),
        id,
        super::todos::repinned(),
    );
    assert forall|i: int| 0 <= i < todos.len() implies twice[i] == todos[i] by {
        assert(twice[i] =~= todos[i]);
    }
    assert(twice =~= todos);
}

/// Toggling a todo twice leaves it as open or as done as it was. Of a todo that was open the time
/// of completion is cleared, and a todo that was done is now completed at the second toggle.
pub proof fn law_toggle_twice(
    todos: Seq<crate::rows::TodoView>,
    id: i64,
    first: i64,
    second: i64,
    i: int,
)
    requires
        0 <= i < todos.len(),
    ensures
        ({
            let twice = super::todos::amended(
                super::todos::amended(todos, id, super::todos::toggled(first)),
                id,
                super::todos::toggled(second),
            );
            twice.len() == todos.len() && twice[i] == if todos[i].id == id {
                crate::rows::TodoView {
                    done_at: if todos[i].done {
                        Some(second)
                    } else {
                        None
                    },
                    ..todos[i]
                }
            } else {
                todos[i]
            }
        }),
{
}

/// What is said of one todo changes no other.
pub proof fn law_other_todos_unchanged(
    todos: Seq<crate::rows::TodoView>,
    id: i64,
    change: spec_fn(crate::rows::TodoView) -> crate::rows::TodoView,
    i: int,
)
    requires
        0 <= i < todos.len(),
        todos[i].id != id,
    ensures
        super::todos::amended(todos, id, change)[i] == todos[i],
        super::todos::amended(todos, id, change).len() == todos.len(),
{
}

/// A todo list shows exactly the todos that its filter and tag select, each once: pinned ones
/// first, within these the open ones, within these the more urgent ones, within these those with
/// an earlier due date, and the latest first.
pub proof fn law_todo_list_order(
    todos: Seq<crate::rows::TodoView>,
    filter: Seq<char>,
    tag: Seq<char>,
    include_done: bool,
    day: (i64, i64),
)
    requires
        crate::rows::todo_ids_rise(todos),
    ensures
        ({
            let list = super::todos::listed_todos(todos, filter, tag, include_done, day);
            &&& forall|t: crate::rows::TodoView| #[trigger]
                list.contains(t) <==> todos.contains(t) && super::todos::filter_shows(
                    filter,
                    include_done,
                    day,
                    t,
                ) && super::todos::tag_shows(tag, t)
            &&& forall|i: int, j: int|
                0 <= i < j < list.len() ==> crate::rows::todo_before(
                    #[trigger] list[i],
                    #[trigger] list[j],
                )
        }),
{
    let keep = super::todos::shows(filter, tag, include_done, day);
    let order = crate::rows::todo_order();
    crate::rows::lemma_todo_order(todos);
    crate::order::lemma_listing(todos, keep, order);
    let list = crate::order::listing(todos, keep, order);
    assert forall|i: int, j: int| 0 <= i < j < list.len() implies crate::rows::todo_before(
        #[trigger] list[i],
        #[trigger] list[j],
    ) by {
        assert(order(list[i], list[j]));
    }
    assert forall|t: crate::rows::TodoView| #[trigger] list.contains(t) <==> todos.contains(t)
        && super::todos::filter_shows(filter, include_done, day, t) && super::todos::tag_shows(
        tag,
        t,
    ) by {
        assert(keep(t) == (super::todos::filter_shows(filter, include_done, day, t)
            && super::todos::tag_shows(tag, t)));
    }
}

/// A setting reads as it was last written, and writing it changes no other.
pub proof fn law_setting_reads_back(
    settings: Map<Seq<char>, Seq<char>>,
    key: Seq<char>,
    value: Seq<char>,
    other: Seq<char>,
)
    requires
        other != key,
    ensures
        settings.insert(key, value)[key] == value,
        settings.insert(key, value).contains_key(key),
        settings.insert(key, value).contains_key(other) == settings.contains_key(other),
        settings.contains_key(other) ==> settings.insert(key, value)[other] == settings[other],
{
}

/// Filling in titles once is enough.
pub proof fn law_titles_once(t: crate::rows::TodoView)
    ensures
        super::migrate::titled(super::migrate::titled(t)) == super::migrate::titled(t),
{
}

/// A table that has every column needs no statement.
pub proof fn law_migrated_once(columns: Seq<(Seq<char>, Seq<char>)>, present: Seq<Seq<char>>)
    requires
        forall|i: int| 0 <= i < columns.len() ==> present.contains((#[trigger] columns[i]).0),
    ensures
        super::migrate::missing(columns, present) == Seq::<Seq<char>>::empty(),
    decreases columns.len(),
{
    if columns.len() > 0 {
        let init = columns.drop_last();
        assert forall|i: int| 0 <= i < init.len() implies present.contains(
            (#[trigger] init[i]).0,
        ) by {
            assert(init[i] == columns[i]);
        }
        law_migrated_once(init, present);
        assert(present.contains(columns[columns.len() - 1].0));
    }
}

} // verus!
