//! The clipboard history.

use super::{Store, StoreError};
use crate::clock::now_ts_ms;
use crate::content::{build_clip, event_blobs, EventBlobs};
use crate::like::{containing_pattern, sql_like_chars};
use crate::order::list_where;
use crate::rows::{ClipEvent, ClipRow};
use crate::text::{chars_of, str_eq};
use vstd::prelude::*;
use vstd::utf8::*;

verus! {

/// The index of the first clip with the content address `hash`.
pub open spec fn hash_index(clips: Seq<crate::rows::ClipView>, hash: Seq<char>) -> Option<int>
    decreases clips.len(),
{
    if clips.len() == 0 {
        None
    } else {
        match hash_index(clips.drop_last(), hash) {
            Some(i) => Some(i),
            None => if clips.last().hash == hash {
                Some(clips.len() - 1)
            } else {
                None
            },
        }
    }
}

/// The clips with the time of clip `id` set to `ts`.
pub open spec fn retimed(
    clips: Seq<crate::rows::ClipView>,
    id: i64,
    ts: i64,
) -> Seq<crate::rows::ClipView> {
    clips.map_values(
        |c: crate::rows::ClipView|
            if c.id == id {
                crate::rows::ClipView { ts, ..c }
            } else {
                c
            },
    )
}

/// The clips with the pin of clip `id` flipped.
pub open spec fn pin_flipped(
    clips: Seq<crate::rows::ClipView>,
    id: i64,
) -> Seq<crate::rows::ClipView> {
    clips.map_values(
        |c: crate::rows::ClipView|
            if c.id == id {
                crate::rows::ClipView { pinned: !c.pinned, ..c }
            } else {
                c
            },
    )
}

/// The id of the next clip: one above the largest, and 1 in an empty table.
pub open spec fn next_clip_id(clips: Seq<crate::rows::ClipView>) -> Option<i64> {
    if clips.len() == 0 {
        Some(1i64)
    } else if clips.last().id < i64::MAX {
        Some((clips.last().id + 1) as i64)
    } else {
        None
    }
}

/// The index of the clip with the given id.
pub open spec fn clip_index(clips: Seq<crate::rows::ClipView>, id: i64) -> Option<int> {
    if exists|i: int| 0 <= i < clips.len() && (#[trigger] clips[i]).id == id {
        Some(choose|i: int| 0 <= i < clips.len() && (#[trigger] clips[i]).id == id)
    } else {
        None
    }
}

/// The clip with the given id.
pub open spec fn clip_at(clips: Seq<crate::rows::ClipView>, id: i64) -> Option<
    crate::rows::ClipView,
> {
    match clip_index(clips, id) {
        Some(i) => Some(clips[i]),
        None => None,
    }
}

pub proof fn lemma_hash_index(clips: Seq<crate::rows::ClipView>, hash: Seq<char>)
    ensures
        match hash_index(clips, hash) {
            Some(i) => 0 <= i < clips.len() && clips[i].hash == hash && forall|k: int|
                0 <= k < i ==> (#[trigger] clips[k]).hash != hash,
            None => forall|k: int| 0 <= k < clips.len() ==> (#[trigger] clips[k]).hash != hash,
        },
    decreases clips.len(),
{
    if clips.len() > 0 {
        lemma_hash_index(clips.drop_last(), hash);
        assert forall|k: int| 0 <= k < clips.len() - 1 implies #[trigger] clips[k]
            == clips.drop_last()[k] by {}
    }
}

/// Setting the time of a clip that does not exist changes nothing.
pub proof fn lemma_retimed_nowhere(clips: Seq<crate::rows::ClipView>, id: i64, ts: i64)
    requires
        clip_index(clips, id) is None,
    ensures
        retimed(clips, id, ts) == clips,
{
    assert forall|k: int| 0 <= k < clips.len() implies (#[trigger] clips[k]).id != id by {}
    assert(retimed(clips, id, ts) =~= clips);
}

/// What an event does to the history: the clips afterwards, and the id of the clip that holds the
/// event's content. Nothing happens, and the id is 0, where there is no content. A clip with the
/// same content address is brought up to date; otherwise there is a new one.
pub open spec fn inserted(
    v: super::StoreView,
    ev: crate::rows::EventView,
    html_on_disk: Option<Seq<u8>>,
) -> Result<(Seq<crate::rows::ClipView>, i64), StoreError> {
    match crate::content::content(ev) {
        None => Ok((v.clips, 0i64)),
        Some(c) => {
            let hash = crate::content::event_hash(ev, c, html_on_disk);
            match hash_index(v.clips, hash) {
                Some(i) => Ok((retimed(v.clips, v.clips[i].id, ev.ts), v.clips[i].id)),
                None => match next_clip_id(v.clips) {
                    Some(id) => Ok(
                        (
                            v.clips.push(
                                crate::content::new_clip(v.blob_dir, ev, c, html_on_disk, id),
                            ),
                            id,
                        ),
                    ),
                    None => Err(StoreError::Full),
                },
            }
        },
    }
}

/// Every clip.
pub open spec fn any_clip() -> spec_fn(crate::rows::ClipView) -> bool {
    |c: crate::rows::ClipView| true
}

/// The clips whose text contains `query`.
pub open spec fn text_contains(query: Seq<char>) -> spec_fn(crate::rows::ClipView) -> bool {
    |c: crate::rows::ClipView|
        c.text is Some && crate::like::sql_like(
            crate::like::containing(query),
            c.text->0,
            Some('\\'),
        )
}

/// The first `limit` elements of `s`; all of them where `limit` is negative.
pub open spec fn limited<V>(s: Seq<V>, limit: i64) -> Seq<V> {
    if limit < 0 || limit >= s.len() {
        s
    } else {
        s.take(limit as int)
    }
}

/// The clips that the ids name, in the order of the ids.
pub open spec fn hits(clips: Seq<crate::rows::ClipView>, ids: Seq<i64>) -> Seq<
    crate::rows::ClipView,
>
    decreases ids.len(),
{
    if ids.len() == 0 {
        seq![]
    } else {
        let rest = hits(clips, ids.drop_last());
        match clip_at(clips, ids.last()) {
            Some(c) => rest.push(c),
            None => rest,
        }
    }
}

pub open spec fn with_pin(pinned: bool) -> spec_fn(crate::rows::ClipView) -> bool {
    |c: crate::rows::ClipView| c.pinned == pinned
}

/// What a search finds. The empty query finds every clip, and a query of one or two characters
/// the clips whose text contains it, in the order of clips. A longer query finds the clips that
/// the full-text index ranked, the pinned ones first.
pub open spec fn found(
    clips: Seq<crate::rows::ClipView>,
    query: Seq<char>,
    ranked: Seq<i64>,
) -> Seq<crate::rows::ClipView> {
    if query.len() == 0 {
        crate::order::listing(clips, any_clip(), crate::rows::clip_order())
    } else if query.len() < 3 {
        crate::order::listing(clips, text_contains(query), crate::rows::clip_order())
    } else {
        let h = hits(clips, ranked);
        h.filter(with_pin(true)) + h.filter(with_pin(false))
    }
}

/// Whether a search for `query` needs the ranking of the full-text index, which cannot match
/// fewer than three characters.
pub fn needs_ranking(query: &str) -> (res: bool)
    ensures
        res == (query@.len() >= 3),
{
    chars_of(query).len() >= 3
}

impl Store {
    /// The index of the clip with the given id.
    pub(super) fn find_clip(&self, id: i64) -> (res: Option<usize>)
        requires
            self.wf(),
        ensures
            match res {
                Some(i) => clip_index(self@.clips, id) == Some(i as int) && i < self.clips@.len()
                    && self.clips@[i as int].id == id,
                None => clip_index(self@.clips, id) is None,
            },
    {
        let mut lo: usize = 0;
        let mut hi: usize = self.clips.len();
        let ghost clips = self@.clips;
        while lo < hi
            invariant
                self.wf(),
                clips == self@.clips,
                lo <= hi <= self.clips@.len(),
                forall|k: int| 0 <= k < lo ==> (#[trigger] clips[k]).id < id,
                forall|k: int| hi <= k < clips.len() ==> (#[trigger] clips[k]).id > id,
            decreases hi - lo,
        {
            let mid = lo + (hi - lo) / 2;
            let found = self.clips[mid].id;
            assert(clips[mid as int].id == found);
            if found == id {
                proof {
                    let j = choose|j: int| 0 <= j < clips.len() && (#[trigger] clips[j]).id == id;
                    if j < mid {
                        assert(clips[j].id < clips[mid as int].id);
                    }
                    if mid < j {
                        assert(clips[mid as int].id < clips[j].id);
                    }
                }
                return Some(mid);
            }
            if found < id {
                assert forall|k: int| 0 <= k < mid + 1 implies (#[trigger] clips[k]).id < id by {
                    if k < mid {
                        assert(clips[k].id < clips[mid as int].id);
                    }
                }
                lo = mid + 1;
            } else {
                assert forall|k: int| mid <= k < clips.len() implies (#[trigger] clips[k]).id > id by {
                    if k > mid {
                        assert(clips[mid as int].id < clips[k].id);
                    }
                }
                hi = mid;
            }
        }
        None
    }

    /// The blob files that belong to an event.
    pub fn event_blobs(&self, ev: &ClipEvent) -> (res: EventBlobs)
        ensures
            match res.html {
                Some(b) => crate::content::document(ev@) == Some(b.body@)
                    && crate::content::html_path_of(self@.blob_dir, ev@) == Some(b.path@) && b.name@
                    == crate::content::blob_name(encode_utf8(b.body@), ".html"@),
                None => crate::content::document(ev@) is None,
            },
            match (res.image, crate::content::content(ev@)) {
                (Some(b), Some(crate::content::ContentView::Image(d))) => b.dib_path@
                    == self@.blob_dir + crate::content::blob_name(d, ".dib"@) && b.dib_name@
                    == crate::content::blob_name(d, ".dib"@) && b.png_name@
                    == crate::content::blob_name(d, ".png"@),
                (Some(_), _) => false,
                (None, c) => !(c matches Some(crate::content::ContentView::Image(_))),
            },
    {
        event_blobs(self.blob_dir.as_str(), ev)
    }

    /// Takes an event into the history and gives the id of its clip. `html_on_disk` is what the
    /// blob file of the event's document holds, where it can be read.
    pub fn insert(&mut self, ev: &ClipEvent, html_on_disk: &Option<Vec<u8>>) -> (res: Result<
        i64,
        StoreError,
    >)
        requires
            old(self).wf(),
        ensures
            final(self).wf(),
            match inserted(old(self)@, ev@, crate::content::opt_bytes(*html_on_disk)) {
                Ok((clips, id)) => res == Ok::<i64, StoreError>(id) && final(self)@ == (
                super::StoreView { clips, ..old(self)@ }),
                Err(e) => res == Err::<i64, StoreError>(e) && final(self)@ == old(self)@,
            },
    {
        let ghost v = self@;
        let row = match build_clip(self.blob_dir.as_str(), ev, html_on_disk, 0) {
            Some(row) => row,
            None => {
                return Ok(0);
            },
        };
        proof {
            lemma_hash_index(v.clips, row@.hash);
        }
        let mut i: usize = 0;
        while i < self.clips.len()
            invariant
                i <= self.clips@.len(),
                *self == *old(self),
                v == self@,
                self.wf(),
                crate::content::content(ev@) is Some,
                row@ == crate::content::new_clip(
                    v.blob_dir,
                    ev@,
                    crate::content::content(ev@)->0,
                    crate::content::opt_bytes(*html_on_disk),
                    0,
                ),
                match hash_index(v.clips, row@.hash) {
                    Some(i) => 0 <= i < v.clips.len() && v.clips[i].hash == row@.hash && forall|
                        k: int,
                    |
                        0 <= k < i ==> (#[trigger] v.clips[k]).hash != row@.hash,
                    None => forall|k: int|
                        0 <= k < v.clips.len() ==> (#[trigger] v.clips[k]).hash != row@.hash,
                },
                forall|k: int| 0 <= k < i ==> (#[trigger] v.clips[k]).hash != row@.hash,
            decreases self.clips@.len() - i,
        {
            if str_eq(self.clips[i].hash.as_str(), row.hash.as_str()) {
                let id = self.clips[i].id;
                assert(v.clips[i as int].hash == row@.hash);
                assert(hash_index(v.clips, row@.hash) == Some(i as int));
                self.set_time(i, ev.ts);
                return Ok(id);
            }
            i += 1;
        }
        let id = if self.clips.len() == 0 {
            1
        } else {
            let last = self.clips[self.clips.len() - 1].id;
            if last == i64::MAX {
                return Err(StoreError::Full);
            }
            last + 1
        };
        let mut row = row;
        row.id = id;
        self.clips.push(row);
        assert(self@.clips =~= v.clips.push(row@));
        Ok(id)
    }

    /// Sets the time of the clip at index `i`.
    fn set_time(&mut self, i: usize, ts: i64)
        requires
            old(self).wf(),
            i < old(self).clips@.len(),
        ensures
            final(self).wf(),
            final(self)@ == (super::StoreView {
                clips: retimed(old(self)@.clips, old(self).clips@[i as int].id, ts),
                ..old(self)@
            }),
    {
        let ghost v = self@;
        let mut row = self.clips[i].clone();
        row.ts = ts;
        self.clips[i] = row;
        proof {
            let id = v.clips[i as int].id;
            assert forall|k: int| 0 <= k < v.clips.len() && k != i implies (#[trigger] v.clips[k]).id
                != id by {
                if k < i {
                    assert(v.clips[k].id < v.clips[i as int].id);
                } else {
                    assert(v.clips[i as int].id < v.clips[k].id);
                }
            }
            assert(self@.clips =~= retimed(v.clips, id, ts));
        }
    }

    /// Sets the time of clip `id`, where there is one.
    pub fn touch_at(&mut self, id: i64, ts: i64)
        requires
            old(self).wf(),
        ensures
            final(self).wf(),
            final(self)@ == (super::StoreView {
                clips: retimed(old(self)@.clips, id, ts),
                ..old(self)@
            }),
    {
        match self.find_clip(id) {
            Some(i) => {
                self.set_time(i, ts);
            },
            None => {
                proof {
                    lemma_retimed_nowhere(self@.clips, id, ts);
                }
            },
        }
    }

    /// Sets the time of clip `id` to now, which brings it to the top of its group.
    pub fn touch(&mut self, id: i64)
        requires
            old(self).wf(),
        ensures
            final(self).wf(),
            exists|now: i64|
                crate::clock::is_now(now) && final(self)@ == (super::StoreView {
                    clips: #[trigger] retimed(old(self)@.clips, id, now),
                    ..old(self)@
                }),
    {
        let now = now_ts_ms();
        self.touch_at(id, now);
    }

    /// The clip with the given id.
    pub fn get(&self, id: i64) -> (res: Option<ClipRow>)
        requires
            self.wf(),
        ensures
            match res {
                Some(row) => clip_at(self@.clips, id) == Some(row@),
                None => clip_at(self@.clips, id) is None,
            },
    {
        match self.find_clip(id) {
            Some(i) => Some(self.clips[i].clone()),
            None => None,
        }
    }

    /// How many clips there are.
    pub fn count(&self) -> (res: usize)
        ensures
            res == self@.clips.len(),
    {
        self.clips.len()
    }

    /// Flips the pin of clip `id` and gives its new value.
    pub fn clip_toggle_pin(&mut self, id: i64) -> (res: Result<bool, StoreError>)
        requires
            old(self).wf(),
        ensures
            final(self).wf(),
            final(self)@ == (super::StoreView {
                clips: pin_flipped(old(self)@.clips, id),
                ..old(self)@
            }),
            match clip_at(old(self)@.clips, id) {
                Some(c) => res == Ok::<bool, StoreError>(!c.pinned),
                None => res == Err::<bool, StoreError>(StoreError::NoRow),
            },
    {
        let ghost v = self@;
        match self.find_clip(id) {
            Some(i) => {
                let mut row = self.clips[i].clone();
                let pinned = !row.pinned;
                row.pinned = pinned;
                self.clips[i] = row;
                proof {
                    assert forall|k: int| 0 <= k < v.clips.len() && k != i implies (
                    #[trigger] v.clips[k]).id != id by {
                        if k < i {
                            assert(v.clips[k].id < v.clips[i as int].id);
                        } else {
                            assert(v.clips[i as int].id < v.clips[k].id);
                        }
                    }
                    assert(self@.clips =~= pin_flipped(v.clips, id));
                }
                Ok(pinned)
            },
            None => {
                proof {
                    assert forall|k: int| 0 <= k < v.clips.len() implies (#[trigger] v.clips[k]).id
                        != id by {}
                    assert(pin_flipped(v.clips, id) =~= v.clips);
                }
                Err(StoreError::NoRow)
            },
        }
    }

    /// Copies of the clips at the given indices, `limit` of them at most.
    fn rows_at(&self, idx: &Vec<usize>, limit: i64) -> (res: Vec<ClipRow>)
        requires
            forall|k: int| 0 <= k < idx@.len() ==> #[trigger] idx@[k] < self.clips@.len(),
        ensures
            crate::order::row_views(res@) == limited(
                crate::order::picked(idx@, self.clips@),
                limit,
            ),
    {
        let n: usize = if limit < 0 || (limit as u64) as u128 >= idx.len() as u128 {
            idx.len()
        } else {
            limit as usize
        };
        let ghost p = crate::order::picked(idx@, self.clips@);
        let mut out: Vec<ClipRow> = Vec::new();
        for k in 0..n
            invariant
                n <= idx@.len(),
                p == crate::order::picked(idx@, self.clips@),
                forall|k: int| 0 <= k < idx@.len() ==> #[trigger] idx@[k] < self.clips@.len(),
                out@.len() == k,
                crate::order::row_views(out@) == p.take(k as int),
        {
            let ghost prev = out@;
            out.push(self.clips[idx[k]].clone());
            assert(crate::order::row_views(out@) =~= p.take(k + 1)) by {
                assert forall|m: int| 0 <= m < k implies crate::order::row_views(out@)[m]
                    == p.take(k + 1)[m] by {
                    assert(crate::order::row_views(prev)[m] == p.take(k as int)[m]);
                }
            }
        }
        assert(p.take(p.len() as int) =~= p);
        out
    }

    pub(super) proof fn lemma_listable(&self)
        requires
            self.wf(),
        ensures
            crate::order::strict_order(
                crate::order::row_views(self.clips@),
                crate::rows::clip_order(),
            ),
            crate::order::distinct_rows(self.clips@),
    {
        let clips = self@.clips;
        crate::rows::lemma_clip_order(clips);
        assert forall|i: int, j: int|
            0 <= i < self.clips@.len() && 0 <= j < self.clips@.len() && i
                != j implies #[trigger] self.clips@[i]@ != #[trigger] self.clips@[j]@ by {
            if i < j {
                assert(clips[i].id < clips[j].id);
            } else {
                assert(clips[j].id < clips[i].id);
            }
        }
    }

    /// Searches the history. `ranked` are the ids that the full-text index gives for `query`, the
    /// best match first; it counts where the query has three characters or more. At most `limit`
    /// clips come out, or all where `limit` is negative.
    pub fn search(&self, query: &str, limit: i64, ranked: &Vec<i64>) -> (res: Vec<ClipRow>)
        requires
            self.wf(),
        ensures
            crate::order::row_views(res@) == limited(
                found(self@.clips, query@, ranked@),
                limit,
            ),
    {
        let q = chars_of(query);
        proof {
            self.lemma_listable();
        }
        if q.len() < 3 {
            let pattern = containing_pattern(&q);
            let all = q.len() == 0;
            let ghost keep = if all {
                any_clip()
            } else {
                text_contains(q@)
            };
            let mut flags: Vec<bool> = Vec::new();
            for i in 0..self.clips.len()
                invariant
                    flags@.len() == i,
                    pattern@ == crate::like::containing(q@),
                    keep == (if all {
                        any_clip()
                    } else {
                        text_contains(q@)
                    }),
                    forall|k: int| 0 <= k < i ==> #[trigger] flags@[k] == keep(self.clips@[k]@),
            {
                let flag = all || match &self.clips[i].text {
                    Some(t) => sql_like_chars(&pattern, &chars_of(t.as_str()), Some('\\')),
                    None => false,
                };
                flags.push(flag);
            }
            let idx = list_where(&self.clips, &flags);
            assert(crate::order::picked(idx@, self.clips@) == crate::order::listing(
                self@.clips,
                keep,
                crate::rows::clip_order(),
            ));
            self.rows_at(&idx, limit)
        } else {
            let mut top: Vec<usize> = Vec::new();
            let mut rest: Vec<usize> = Vec::new();
            let ghost clips = self@.clips;
            for i in 0..ranked.len()
                invariant
                    self.wf(),
                    clips == self@.clips,
                    forall|k: int| 0 <= k < top@.len() ==> #[trigger] top@[k] < self.clips@.len(),
                    forall|k: int| 0 <= k < rest@.len() ==> #[trigger] rest@[k] < self.clips@.len(),
                    crate::order::picked(top@, self.clips@) == hits(
                        clips,
                        ranked@.take(i as int),
                    ).filter(with_pin(true)),
                    crate::order::picked(rest@, self.clips@) == hits(
                        clips,
                        ranked@.take(i as int),
                    ).filter(with_pin(false)),
            {
                let ghost before = hits(clips, ranked@.take(i as int));
                let ghost t0 = top@;
                let ghost r0 = rest@;
                assert(ranked@.take(i + 1).drop_last() =~= ranked@.take(i as int));
                match self.find_clip(ranked[i]) {
                    Some(k) => {
                        if self.clips[k].pinned {
                            top.push(k);
                        } else {
                            rest.push(k);
                        }
                        proof {
                            let c = clips[k as int];
                            reveal(Seq::filter);
                            assert(before.push(c).drop_last() =~= before);
                            assert(crate::order::picked(top@, self.clips@) =~= before.push(
                                c,
                            ).filter(with_pin(true)));
                            assert(crate::order::picked(rest@, self.clips@) =~= before.push(
                                c,
                            ).filter(with_pin(false)));
                        }
                    },
                    None => {},
                }
            }
            assert(ranked@.take(ranked@.len() as int) =~= ranked@);
            let ghost t = top@;
            let ghost r = rest@;
            top.append(&mut rest);
            assert(crate::order::picked(top@, self.clips@) =~= crate::order::picked(t, self.clips@)
                + crate::order::picked(r, self.clips@));
            self.rows_at(&top, limit)
        }
    }
}

} // verus!
