//! Laws of deleting: which rows go, and which files go with them.

use crate::commands::{enforce_limit, history_limit, set_history_limit, take_in};
use crate::rows::{ClipEvent, ClipRow};
use crate::store::deletion::Swept;
use crate::store::{Store, StoreError};
use vstd::prelude::*;

verus! {

/// Whether a path has the stem in it, with the letters of ASCII in either case.
pub open spec fn mentions(path: Option<Seq<char>>, stem: Seq<char>) -> bool {
    path is Some && exists|k: int| #[trigger]
        crate::laws::lists::reads_at(crate::like::c_str(path->0), stem, k)
}

/// A file is counted once for each clip that has its stem in the path of its image or its
/// document, and once for each todo that has it in the path of its image. For the count of an
/// image, documents do not matter.
pub proof fn law_references(s: &Store, stem: &str, n: u128, m: u128)
    requires
        call_ensures(Store::references, (s, stem), n),
        call_ensures(Store::image_references, (s, stem), m),
        crate::laws::patterns::is_literal(stem@),
    ensures
        n == s@.clips.filter(
            |c: crate::rows::ClipView|
                mentions(c.image_path, stem@) || mentions(c.html_path, stem@),
        ).len() + s@.todos.filter(
            |t: crate::rows::TodoView| mentions(t.image_path, stem@),
        ).len(),
        m == s@.clips.filter(|c: crate::rows::ClipView| mentions(c.image_path, stem@)).len()
            + s@.todos.filter(|t: crate::rows::TodoView| mentions(t.image_path, stem@)).len(),
{
    let st = stem@;
    assert forall|p: Option<Seq<char>>| #[trigger]
        crate::store::blobs::refers(p, st) == mentions(p, st) by {
        if let Some(path) = p {
            crate::laws::patterns::lemma_part_found(st, path);
        }
    }
    crate::seqs::lemma_filter_same(
        s@.clips,
        crate::store::blobs::clip_refers(st),
        |c: crate::rows::ClipView| mentions(c.image_path, stem@) || mentions(c.html_path, stem@),
    );
    crate::seqs::lemma_filter_same(
        s@.clips,
        crate::store::blobs::clip_image_refers(st),
        |c: crate::rows::ClipView| mentions(c.image_path, stem@),
    );
    crate::seqs::lemma_filter_same(
        s@.todos,
        crate::store::blobs::todo_refers(st),
        |t: crate::rows::TodoView| mentions(t.image_path, stem@),
    );
}

/// Whether a path matches the stem as a pattern, between two `%`.
pub open spec fn matches_stem(path: Option<Seq<char>>, stem: Seq<char>) -> bool {
    path is Some && crate::like::sql_like(seq!['%'] + stem + seq!['%'], path->0, None)
}

/// A stem with special characters counts as the pattern that it is.
pub proof fn law_references_by_pattern(s: &Store, stem: &str, n: u128, m: u128)
    requires
        call_ensures(Store::references, (s, stem), n),
        call_ensures(Store::image_references, (s, stem), m),
    ensures
        n == s@.clips.filter(
            |c: crate::rows::ClipView|
                matches_stem(c.image_path, stem@) || matches_stem(c.html_path, stem@),
        ).len() + s@.todos.filter(
            |t: crate::rows::TodoView| matches_stem(t.image_path, stem@),
        ).len(),
        m == s@.clips.filter(|c: crate::rows::ClipView| matches_stem(c.image_path, stem@)).len()
            + s@.todos.filter(
            |t: crate::rows::TodoView| matches_stem(t.image_path, stem@),
        ).len(),
{
    crate::seqs::lemma_filter_same(
        s@.clips,
        crate::store::blobs::clip_refers(stem@),
        |c: crate::rows::ClipView|
            matches_stem(c.image_path, stem@) || matches_stem(c.html_path, stem@),
    );
    crate::seqs::lemma_filter_same(
        s@.clips,
        crate::store::blobs::clip_image_refers(stem@),
        |c: crate::rows::ClipView| matches_stem(c.image_path, stem@),
    );
    crate::seqs::lemma_filter_same(
        s@.todos,
        crate::store::blobs::todo_refers(stem@),
        |t: crate::rows::TodoView| matches_stem(t.image_path, stem@),
    );
}

/// Whether a path is that of a plain file name in a plain directory, and `stem` is what precedes
/// the last dot of the name.
pub open spec fn is_plain_file(path: Seq<char>, stem: Seq<char>) -> bool {
    exists|dir: Seq<char>, name: Seq<char>|
        path == #[trigger] (dir + name) && crate::store::blobs::plain_dir(dir)
            && crate::store::blobs::plain_name(name) && is_stem_and_dot(name, stem)
}

/// Whether `name` is `stem`, a dot, and an extension without dots.
pub open spec fn is_stem_and_dot(name: Seq<char>, stem: Seq<char>) -> bool {
    &&& 0 < stem.len() < name.len()
    &&& name.take(stem.len() as int) == stem
    &&& name[stem.len() as int] == '.'
    &&& forall|k: int| stem.len() < k < name.len() ==> #[trigger] name[k] != '.'
}

proof fn lemma_plain_stem(path: Seq<char>, stem: Seq<char>, given: Option<Seq<char>>)
    requires
        is_plain_file(path, stem),
        crate::store::blobs::is_stem(path, given),
    ensures
        given == Some(stem),
{
    let (dir, name) = choose|dir: Seq<char>, name: Seq<char>|
        path == #[trigger] (dir + name) && crate::store::blobs::plain_dir(dir)
            && crate::store::blobs::plain_name(name) && is_stem_and_dot(name, stem);
    crate::store::blobs::lemma_stem_at(name, stem.len() as int);
}

/// The path as a list of one, where there is one and `goes` holds.
pub open spec fn if_goes(path: Option<Seq<char>>, goes: bool) -> Seq<Seq<char>> {
    if path is Some && goes {
        seq![path->0]
    } else {
        seq![]
    }
}

/// Deleting a clip takes its row out and leaves all else as it is. Its files go that no row but
/// the clip's own mentions, the image first.
pub proof fn law_clip_deleted(
    s: &mut Store,
    id: i64,
    res: Vec<String>,
    k: int,
    before: &Store,
    image_stem: &str,
    html_stem: &str,
    n: u128,
    m: u128,
)
    requires
        old(s).wf(),
        call_ensures(Store::clip_delete, (s, id), res),
        0 <= k < old(s)@.clips.len(),
        old(s)@.clips[k].id == id,
        before@ == old(s)@,
        old(s)@.clips[k].image_path matches Some(p) ==> is_plain_file(p, image_stem@),
        old(s)@.clips[k].html_path matches Some(p) ==> is_plain_file(p, html_stem@),
        call_ensures(Store::references, (before, image_stem), n),
        call_ensures(Store::references, (before, html_stem), m),
    ensures
        final(s)@.clips == old(s)@.clips.remove(k),
        final(s)@.todos == old(s)@.todos,
        final(s)@.settings == old(s)@.settings,
        final(s)@.blob_dir == old(s)@.blob_dir,
        crate::text::views(res@) == if_goes(old(s)@.clips[k].image_path, n <= 1) + if_goes(
            old(s)@.clips[k].html_path,
            m <= 1,
        ),
{
    old(s).lemma_valid();
    let clips = old(s)@.clips;
    let c = clips[k];
    lemma_one_removed(clips, k);
    crate::laws::history::lemma_clip_found(clips, k);
    let stems = choose|stems: crate::store::deletion::Stems| #[trigger]
        crate::store::deletion::are_given_stems_of(c, stems) && crate::text::views(res@)
            == crate::store::deletion::clip_files(clips, old(s)@.todos, c, stems, 1);
    if let Some(p) = c.image_path {
        lemma_plain_stem(p, image_stem@, stems.0);
    }
    if let Some(p) = c.html_path {
        lemma_plain_stem(p, html_stem@, stems.1);
    }
}

proof fn lemma_one_removed(clips: Seq<crate::rows::ClipView>, k: int)
    requires
        crate::rows::clip_ids_rise(clips),
        0 <= k < clips.len(),
    ensures
        crate::store::deletion::clips_without(clips, clips[k].id) == clips.remove(k),
{
    crate::laws::history::lemma_ids_apart(clips, k);
    crate::seqs::lemma_filter_remove(clips, crate::store::deletion::other_clip(clips[k].id), k);
}

/// The same by stems that are handed over: a file goes where it has a stem and no more than one
/// row mentions that.
pub proof fn law_clip_deleted_by_stems(
    s: &mut Store,
    id: i64,
    image_stem: &Option<String>,
    html_stem: &Option<String>,
    res: Vec<String>,
    k: int,
    before: &Store,
    a: &str,
    b: &str,
    n: u128,
    m: u128,
)
    requires
        old(s).wf(),
        call_ensures(Store::clip_delete_by_stems, (s, id, image_stem, html_stem), res),
        0 <= k < old(s)@.clips.len(),
        old(s)@.clips[k].id == id,
        before@ == old(s)@,
        image_stem matches Some(x) ==> a@ == x@,
        html_stem matches Some(x) ==> b@ == x@,
        call_ensures(Store::references, (before, a), n),
        call_ensures(Store::references, (before, b), m),
    ensures
        final(s)@.clips == old(s)@.clips.remove(k),
        final(s)@.todos == old(s)@.todos,
        final(s)@.settings == old(s)@.settings,
        final(s)@.blob_dir == old(s)@.blob_dir,
        crate::text::views(res@) == if_goes(
            old(s)@.clips[k].image_path,
            image_stem is Some && n <= 1,
        ) + if_goes(old(s)@.clips[k].html_path, html_stem is Some && m <= 1),
{
    old(s).lemma_valid();
    lemma_one_removed(old(s)@.clips, k);
    crate::laws::history::lemma_clip_found(old(s)@.clips, k);
}

/// Deleting a clip that is not there changes nothing and gives no file up.
pub proof fn law_absent_clip_deleted(s: &mut Store, id: i64, res: Vec<String>)
    requires
        old(s).wf(),
        call_ensures(Store::clip_delete, (s, id), res),
        forall|i: int| 0 <= i < old(s)@.clips.len() ==> (#[trigger] old(s)@.clips[i]).id != id,
    ensures
        final(s)@ == old(s)@,
        res@.len() == 0,
{
    crate::seqs::lemma_filter_all(old(s)@.clips, crate::store::deletion::other_clip(id));
}

/// What is left of a table after rows were taken out: rows of the old table in their old order.
pub open spec fn is_rest(before: crate::store::StoreView, after: crate::store::StoreView) -> bool {
    &&& forall|c: crate::rows::ClipView| #[trigger]
        after.clips.contains(c) ==> before.clips.contains(c)
    &&& forall|i: int, j: int|
        0 <= i < j < after.clips.len() ==> (#[trigger] after.clips[i]).id < (
        #[trigger] after.clips[j]).id
    &&& after.todos == before.todos
    &&& after.settings == before.settings
    &&& after.blob_dir == before.blob_dir
}

/// Whether a clip was taken out.
pub open spec fn is_gone(
    before: crate::store::StoreView,
    after: crate::store::StoreView,
    c: crate::rows::ClipView,
) -> bool {
    before.clips.contains(c) && !after.clips.contains(c)
}

/// Trimming the history to a number of clips keeps every pinned clip, and of the others that
/// number: the latest ones. The ids of the clips that go are the answer.
pub proof fn law_trimmed(s: &mut Store, keep: i64, res: Swept)
    requires
        old(s).wf(),
        call_ensures(Store::trim, (s, keep), res),
    ensures
        is_rest(old(s)@, final(s)@),
        forall|c: crate::rows::ClipView| #[trigger]
            old(s)@.clips.contains(c) && c.pinned ==> final(s)@.clips.contains(c),
        ({
            let loose = old(s)@.clips.filter(|c: crate::rows::ClipView| !c.pinned).len();
            final(s)@.clips.filter(|c: crate::rows::ClipView| !c.pinned).len() == if keep <= 0 {
                0
            } else if keep < loose {
                keep as int
            } else {
                loose as int
            }
        }),
        forall|c: crate::rows::ClipView, d: crate::rows::ClipView|
            #[trigger] final(s)@.clips.contains(c) && !c.pinned && #[trigger] is_gone(
                old(s)@,
                final(s)@,
                d,
            ) ==> c.ts > d.ts || (c.ts == d.ts && c.id < d.id),
        forall|c: crate::rows::ClipView| #[trigger]
            old(s)@.clips.contains(c) ==> (res.ids@.contains(c.id) <==> is_gone(
                old(s)@,
                final(s)@,
                c,
            )),
        forall|i: int|
            0 <= i < res.ids@.len() ==> exists|c: crate::rows::ClipView|
                is_gone(old(s)@, final(s)@, c) && c.id == #[trigger] res.ids@[i],
        res.ids@.len() + final(s)@.clips.len() == old(s)@.clips.len(),
{
    old(s).lemma_valid();
    final(s).lemma_valid();
    let clips = old(s)@.clips;
    let victims = crate::store::deletion::trim_victims(clips, keep);
    let after = final(s)@.clips;
    let no = crate::store::clips::with_pin(false);
    crate::seqs::lemma_filter_elements(clips, crate::store::deletion::not_among(victims));
    crate::store::deletion::lemma_victims(clips, keep);
    lemma_trim_count(clips, keep);
    let least: i64 = if keep < 0 {
        0
    } else {
        keep
    };
    crate::store::laws::law_trim_keeps_latest(clips, least);
    crate::seqs::lemma_filter_same(after, no, |c: crate::rows::ClipView| !c.pinned);
    crate::seqs::lemma_filter_same(clips, no, |c: crate::rows::ClipView| !c.pinned);
    assert forall|c: crate::rows::ClipView, d: crate::rows::ClipView|
        #[trigger] after.contains(c) && !c.pinned && #[trigger] is_gone(
            old(s)@,
            final(s)@,
            d,
        ) implies c.ts > d.ts || (c.ts == d.ts && c.id < d.id) by {
        assert(victims.contains(d));
        let i = choose|i: int| 0 <= i < victims.len() && victims[i] == d;
        assert(!victims[i].pinned);
        assert(crate::rows::clip_before(c, d));
    }
    assert forall|c: crate::rows::ClipView| #[trigger]
        clips.contains(c) implies (res.ids@.contains(c.id) <==> is_gone(
        old(s)@,
        final(s)@,
        c,
    )) by {
        lemma_victim_id(clips, victims, res.ids@, c);
    }
    assert forall|i: int| 0 <= i < res.ids@.len() implies exists|c: crate::rows::ClipView|
        is_gone(old(s)@, final(s)@, c) && c.id == #[trigger] res.ids@[i] by {
        assert(victims.contains(victims[i]));
        assert(is_gone(old(s)@, final(s)@, victims[i]) && victims[i].id == res.ids@[i]);
    }
}

proof fn lemma_trim_count(clips: Seq<crate::rows::ClipView>, keep: i64)
    requires
        crate::rows::clip_ids_rise(clips),
    ensures
        ({
            let victims = crate::store::deletion::trim_victims(clips, keep);
            victims.len() + crate::store::deletion::kept(clips, victims).len() == clips.len()
        }),
{
    let victims = crate::store::deletion::trim_victims(clips, keep);
    let stays = crate::store::deletion::not_among(victims);
    let goes = |c: crate::rows::ClipView| victims.contains(c);
    crate::seqs::lemma_filter_opposite(clips, stays, goes);
    crate::seqs::lemma_filter_elements(clips, goes);
    crate::store::deletion::lemma_victims(clips, keep);
    let gone = clips.filter(goes);
    crate::seqs::lemma_filter_rises(clips, goes, |c: crate::rows::ClipView| c.id as int);
    let order = crate::rows::clip_order();
    crate::rows::lemma_clip_order(clips);
    crate::order::lemma_listing(clips, crate::store::clips::with_pin(false), order);
    let loose = crate::order::listing(clips, crate::store::clips::with_pin(false), order);
    assert(victims.no_duplicates()) by {
        let n: int = loose.len() - victims.len();
        assert forall|i: int, j: int|
            0 <= i < victims.len() && 0 <= j < victims.len() && i != j implies victims[i]
            != victims[j] by {
            assert(victims[i] == loose[i + n] && victims[j] == loose[j + n]);
            if i < j {
                assert(order(loose[i + n], loose[j + n]));
            } else {
                assert(order(loose[j + n], loose[i + n]));
            }
        }
    }
    assert(gone.no_duplicates()) by {
        assert forall|i: int, j: int|
            0 <= i < gone.len() && 0 <= j < gone.len() && i != j implies gone[i] != gone[j] by {
            if i < j {
                assert(gone[i].id < gone[j].id);
            } else {
                assert(gone[j].id < gone[i].id);
            }
        }
    }
    assert forall|c: crate::rows::ClipView| #[trigger] gone.contains(c) <==> victims.contains(
        c,
    ) by {
        if victims.contains(c) {
            let i = choose|i: int| 0 <= i < victims.len() && victims[i] == c;
            assert(clips.contains(victims[i]));
        }
    }
    crate::store::laws::lemma_same_len(gone, victims);
}

proof fn lemma_victim_id(
    clips: Seq<crate::rows::ClipView>,
    victims: Seq<crate::rows::ClipView>,
    ids: Seq<i64>,
    c: crate::rows::ClipView,
)
    requires
        crate::rows::clip_ids_rise(clips),
        ids == crate::store::deletion::clip_ids(victims),
        forall|i: int| 0 <= i < victims.len() ==> clips.contains(#[trigger] victims[i]),
        clips.contains(c),
    ensures
        ids.contains(c.id) <==> victims.contains(c),
{
    if ids.contains(c.id) {
        let i = choose|i: int| 0 <= i < ids.len() && ids[i] == c.id;
        assert(clips.contains(victims[i]));
        let a = choose|a: int| 0 <= a < clips.len() && clips[a] == victims[i];
        let b = choose|b: int| 0 <= b < clips.len() && clips[b] == c;
        crate::laws::history::lemma_ids_apart(clips, a);
        assert(a == b);
    }
    if victims.contains(c) {
        let i = choose|i: int| 0 <= i < victims.len() && victims[i] == c;
        assert(ids[i] == c.id);
    }
}

/// The clips that trimming would take out are listed as clips are.
pub proof fn law_trim_order(s: &Store, keep: i64, res: Vec<ClipRow>)
    requires
        s.wf(),
        call_ensures(Store::trim_victims, (s, keep), res),
    ensures
        crate::laws::lists::clips_in_order(res@),
{
    s.lemma_valid();
    let clips = s@.clips;
    let order = crate::rows::clip_order();
    let views = crate::order::row_views(res@);
    crate::rows::lemma_clip_order(clips);
    crate::order::lemma_listing(clips, crate::store::clips::with_pin(false), order);
    let loose = crate::order::listing(clips, crate::store::clips::with_pin(false), order);
    assert forall|i: int, j: int| 0 <= i < j < res@.len() implies {
        let a = #[trigger] res@[i];
        let b = #[trigger] res@[j];
        &&& b.pinned ==> a.pinned
        &&& a.pinned == b.pinned ==> a.ts >= b.ts
        &&& a.pinned == b.pinned && a.ts == b.ts ==> a.id < b.id
    } by {
        assert(views[i] == res@[i]@ && views[j] == res@[j]@);
        let n: int = loose.len() - views.len();
        assert(views[i] == loose[i + n] && views[j] == loose[j + n]);
        assert(order(loose[i + n], loose[j + n]));
    }
}

/// The clips that trimming takes out are those that it would take out, in that order.
pub proof fn law_trim_as_announced(
    s: &mut Store,
    keep: i64,
    res: Swept,
    before: &Store,
    rows: Vec<ClipRow>,
)
    requires
        old(s).wf(),
        call_ensures(Store::trim, (s, keep), res),
        before.wf(),
        before@ == old(s)@,
        call_ensures(Store::trim_victims, (before, keep), rows),
    ensures
        res.ids@.len() == rows@.len(),
        forall|i: int| 0 <= i < rows@.len() ==> res.ids@[i] == (#[trigger] rows@[i]).id,
{
    let views = crate::order::row_views(rows@);
    assert forall|i: int| 0 <= i < rows@.len() implies res.ids@[i] == (#[trigger] rows@[i]).id by {
        assert(views[i] == rows@[i]@);
        assert(res.ids@[i] == views[i].id);
    }
}

/// Clearing the history keeps the pinned clips and takes out all the others.
pub proof fn law_cleared(s: &mut Store, res: Swept)
    requires
        old(s).wf(),
        call_ensures(Store::clips_clear, (s,), res),
    ensures
        is_rest(old(s)@, final(s)@),
        forall|c: crate::rows::ClipView| #[trigger]
            final(s)@.clips.contains(c) <==> old(s)@.clips.contains(c) && c.pinned,
        forall|c: crate::rows::ClipView| #[trigger]
            old(s)@.clips.contains(c) ==> (res.ids@.contains(c.id) <==> !c.pinned),
        res.ids@.len() + final(s)@.clips.len() == old(s)@.clips.len(),
        forall|i: int, j: int|
            0 <= i < j < res.ids@.len() ==> #[trigger] res.ids@[i] < #[trigger] res.ids@[j],
{
    old(s).lemma_valid();
    final(s).lemma_valid();
    let clips = old(s)@.clips;
    let yes = crate::store::clips::with_pin(true);
    let no = crate::store::clips::with_pin(false);
    crate::seqs::lemma_filter_elements(clips, yes);
    crate::seqs::lemma_filter_elements(clips, no);
    crate::seqs::lemma_filter_opposite(clips, yes, no);
    let victims = clips.filter(no);
    crate::seqs::lemma_filter_rises(clips, no, |c: crate::rows::ClipView| c.id as int);
    assert forall|i: int, j: int| 0 <= i < j < res.ids@.len() implies #[trigger] res.ids@[i]
        < #[trigger] res.ids@[j] by {
        assert(victims[i].id < victims[j].id);
    }
    assert forall|i: int| 0 <= i < victims.len() implies clips.contains(#[trigger] victims[i]) by {
        assert(victims.contains(victims[i]));
    }
    assert forall|c: crate::rows::ClipView| #[trigger]
        clips.contains(c) implies (res.ids@.contains(c.id) <==> !c.pinned) by {
        lemma_victim_id(clips, victims, res.ids@, c);
    }
}

/// Whether no row has the file as the path of its image or its document.
pub open spec fn nobody_has(v: crate::store::StoreView, file: Seq<char>) -> bool {
    &&& forall|i: int|
        0 <= i < v.clips.len() ==> (#[trigger] v.clips[i]).image_path != Some(file)
            && v.clips[i].html_path != Some(file)
    &&& forall|i: int| 0 <= i < v.todos.len() ==> (#[trigger] v.todos[i]).image_path != Some(file)
}

/// Whether no row mentions the stem.
pub open spec fn nobody_mentions(v: crate::store::StoreView, stem: Seq<char>) -> bool {
    &&& forall|i: int|
        0 <= i < v.clips.len() ==> !mentions((#[trigger] v.clips[i]).image_path, stem)
            && !mentions(v.clips[i].html_path, stem)
    &&& forall|i: int|
        0 <= i < v.todos.len() ==> !mentions((#[trigger] v.todos[i]).image_path, stem)
}

/// Whether the clip has the file as its image or its document.
pub open spec fn has_file(c: crate::rows::ClipView, file: Seq<char>) -> bool {
    c.image_path == Some(file) || c.html_path == Some(file)
}

/// Every file that goes when the history is trimmed or cleared was a file of a clip that went,
/// and no row that is left has it.
pub proof fn law_files_that_go(
    s: &mut Store,
    keep: i64,
    swept: Swept,
    t: &mut Store,
    cleared: Swept,
    k: int,
)
    requires
        old(s).wf(),
        old(t).wf(),
        call_ensures(Store::trim, (s, keep), swept),
        call_ensures(Store::clips_clear, (t,), cleared),
    ensures
        0 <= k < swept.files@.len() ==> exists|c: crate::rows::ClipView| #[trigger]
            is_gone(old(s)@, final(s)@, c) && has_file(c, swept.files@[k]@),
        0 <= k < swept.files@.len() && !swept.files@[k]@.contains('\0') ==> nobody_has(
            final(s)@,
            swept.files@[k]@,
        ),
        0 <= k < cleared.files@.len() ==> exists|c: crate::rows::ClipView| #[trigger]
            is_gone(old(t)@, final(t)@, c) && has_file(c, cleared.files@[k]@),
        0 <= k < cleared.files@.len() && !cleared.files@[k]@.contains('\0') ==> nobody_has(
            final(t)@,
            cleared.files@[k]@,
        ),
{
    old(s).lemma_valid();
    old(t).lemma_valid();
    if 0 <= k < swept.files@.len() {
        let clips = old(s)@.clips;
        let victims = crate::store::deletion::trim_victims(clips, keep);
        let stems = choose|stems: Seq<crate::store::deletion::Stems>| #[trigger]
            crate::store::deletion::are_all_given_stems(victims, stems) && crate::text::views(
                swept.files@,
            ) == crate::store::deletion::trim_files(clips, old(s)@.todos, victims, stems);
        assert(crate::text::views(swept.files@)[k] == swept.files@[k]@);
        lemma_trim_file_of(clips, old(s)@.todos, victims, stems, k);
        let j = choose|j: int|
            0 <= j < victims.len() && has_file(#[trigger] victims[j], swept.files@[k]@);
        crate::store::deletion::lemma_victims(clips, keep);
        crate::seqs::lemma_filter_elements(clips, crate::store::deletion::not_among(victims));
        assert(victims.contains(victims[j]));
        assert(is_gone(old(s)@, final(s)@, victims[j]));
    }
    if 0 <= k < cleared.files@.len() {
        let clips = old(t)@.clips;
        let no = crate::store::clips::with_pin(false);
        let victims = clips.filter(no);
        let stems = choose|stems: Seq<crate::store::deletion::Stems>| #[trigger]
            crate::store::deletion::are_all_given_stems(victims, stems) && crate::text::views(
                cleared.files@,
            ) == crate::store::deletion::clear_files(
                final(t)@.clips,
                final(t)@.todos,
                victims,
                stems,
            );
        assert(crate::text::views(cleared.files@)[k] == cleared.files@[k]@);
        lemma_clear_file_of(final(t)@.clips, final(t)@.todos, victims, stems, k);
        let j = choose|j: int|
            0 <= j < victims.len() && has_file(#[trigger] victims[j], cleared.files@[k]@);
        crate::seqs::lemma_filter_elements(clips, no);
        crate::seqs::lemma_filter_elements(clips, crate::store::clips::with_pin(true));
        assert(victims.contains(victims[j]));
        assert(is_gone(old(t)@, final(t)@, victims[j]));
    }
}

proof fn lemma_clip_file_of(
    clips: Seq<crate::rows::ClipView>,
    todos: Seq<crate::rows::TodoView>,
    c: crate::rows::ClipView,
    stems: crate::store::deletion::Stems,
    most: nat,
    k: int,
)
    requires
        0 <= k < crate::store::deletion::clip_files(clips, todos, c, stems, most).len(),
    ensures
        has_file(c, crate::store::deletion::clip_files(clips, todos, c, stems, most)[k]),
{
}

proof fn lemma_trim_file_of(
    clips: Seq<crate::rows::ClipView>,
    todos: Seq<crate::rows::TodoView>,
    victims: Seq<crate::rows::ClipView>,
    stems: Seq<crate::store::deletion::Stems>,
    k: int,
)
    requires
        0 <= k < crate::store::deletion::trim_files(clips, todos, victims, stems).len(),
    ensures
        exists|j: int|
            0 <= j < victims.len() && has_file(
                #[trigger] victims[j],
                crate::store::deletion::trim_files(clips, todos, victims, stems)[k],
            ),
    decreases victims.len(),
{
    let all = crate::store::deletion::trim_files(clips, todos, victims, stems);
    let v = victims.drop_last();
    let head = crate::store::deletion::trim_files(clips, todos, v, stems.drop_last());
    if k < head.len() {
        lemma_trim_file_of(clips, todos, v, stems.drop_last(), k);
        let j = choose|j: int| 0 <= j < v.len() && has_file(#[trigger] v[j], head[k]);
        assert(victims[j] == v[j]);
    } else {
        let last = victims[victims.len() - 1];
        lemma_clip_file_of(
            crate::store::deletion::kept(clips, victims),
            todos,
            last,
            stems.last(),
            0,
            k - head.len(),
        );
        assert(has_file(last, all[k]));
    }
}

proof fn lemma_clear_file_of(
    clips: Seq<crate::rows::ClipView>,
    todos: Seq<crate::rows::TodoView>,
    victims: Seq<crate::rows::ClipView>,
    stems: Seq<crate::store::deletion::Stems>,
    k: int,
)
    requires
        0 <= k < crate::store::deletion::clear_files(clips, todos, victims, stems).len(),
    ensures
        exists|j: int|
            0 <= j < victims.len() && has_file(
                #[trigger] victims[j],
                crate::store::deletion::clear_files(clips, todos, victims, stems)[k],
            ),
    decreases victims.len(),
{
    let all = crate::store::deletion::clear_files(clips, todos, victims, stems);
    let v = victims.drop_last();
    let head = crate::store::deletion::clear_files(clips, todos, v, stems.drop_last());
    if k < head.len() {
        lemma_clear_file_of(clips, todos, v, stems.drop_last(), k);
        let j = choose|j: int| 0 <= j < v.len() && has_file(#[trigger] v[j], head[k]);
        assert(victims[j] == v[j]);
    } else {
        let last = victims[victims.len() - 1];
        lemma_clip_file_of(clips, todos, last, stems.last(), 0, k - head.len());
        assert(has_file(last, all[k]));
    }
}

proof fn lemma_nobody_refers(v: crate::store::StoreView, file: Seq<char>, stem: Seq<char>)
    requires
        is_plain_file(file, stem),
        crate::laws::patterns::is_literal(stem),
        nobody_mentions(v, stem),
    ensures
        forall|i: int|
            0 <= i < v.clips.len() ==> !crate::store::blobs::clip_refers_to(file)(
                #[trigger] v.clips[i],
            ),
        forall|i: int|
            0 <= i < v.todos.len() ==> !crate::store::blobs::todo_refers_to(file)(
                #[trigger] v.todos[i],
            ),
{
    assert forall|p: Option<Seq<char>>| #[trigger]
        crate::store::blobs::refers(p, stem) == mentions(p, stem) by {
        if let Some(path) = p {
            crate::laws::patterns::lemma_part_found(stem, path);
        }
    }
    assert forall|x: Seq<char>| #[trigger]
        crate::store::blobs::is_stem(file, Some(x)) implies x == stem by {
        lemma_plain_stem(file, stem, Some(x));
    }
}

/// A plain file of a clip that goes when the history is cleared goes too, unless a row that is
/// left mentions it.
pub proof fn law_clearing_gives_files_up(
    s: &mut Store,
    res: Swept,
    c: crate::rows::ClipView,
    file: Seq<char>,
    stem: Seq<char>,
)
    requires
        old(s).wf(),
        call_ensures(Store::clips_clear, (s,), res),
        is_gone(old(s)@, final(s)@, c),
        has_file(c, file),
        is_plain_file(file, stem),
        crate::laws::patterns::is_literal(stem),
        nobody_mentions(final(s)@, stem),
    ensures
        crate::text::views(res.files@).contains(file),
{
    old(s).lemma_valid();
    let clips = old(s)@.clips;
    let no = crate::store::clips::with_pin(false);
    let victims = clips.filter(no);
    crate::seqs::lemma_filter_elements(clips, no);
    crate::seqs::lemma_filter_elements(clips, crate::store::clips::with_pin(true));
    assert(victims.contains(c));
    let j = choose|j: int| 0 <= j < victims.len() && victims[j] == c;
    let stems = choose|stems: Seq<crate::store::deletion::Stems>| #[trigger]
        crate::store::deletion::are_all_given_stems(victims, stems) && crate::text::views(
            res.files@,
        ) == crate::store::deletion::clear_files(
            final(s)@.clips,
            final(s)@.todos,
            victims,
            stems,
        );
    assert forall|i: int| 0 <= i < victims.len() implies #[trigger]
        crate::store::deletion::are_stems_of(victims[i], stems[i]) by {
        assert(crate::store::deletion::are_given_stems_of(victims[i], stems[i]));
    }
    lemma_nobody_refers(final(s)@, file, stem);
    let (dir, name) = choose|dir: Seq<char>, name: Seq<char>|
        file == #[trigger] (dir + name) && crate::store::blobs::plain_dir(dir)
            && crate::store::blobs::plain_name(name) && is_stem_and_dot(name, stem);
    crate::store::deletion::law_clear_gives_files_up(final(s)@, victims, stems, j, dir, name);
}

/// Whether the file is a plain one of a clip that went, and is not needed any more: no row that is
/// left mentions it, and each clip that went and mentions it has it.
pub open spec fn is_given_up(
    before: crate::store::StoreView,
    after: crate::store::StoreView,
    file: Seq<char>,
    stem: Seq<char>,
) -> bool {
    &&& exists|c: crate::rows::ClipView| #[trigger] is_gone(before, after, c) && has_file(c, file)
    &&& is_plain_file(file, stem)
    &&& crate::laws::patterns::is_literal(stem)
    &&& nobody_mentions(after, stem)
    &&& forall|d: crate::rows::ClipView| #[trigger]
        is_gone(before, after, d) && (mentions(d.image_path, stem) || mentions(
            d.html_path,
            stem,
        )) ==> has_file(d, file)
}

/// A plain file of a clip that goes when the history is trimmed goes too, unless a row that is
/// left mentions it, or a clip that went mentions it without having it.
pub proof fn law_trimming_gives_files_up(
    s: &mut Store,
    keep: i64,
    res: Swept,
    file: Seq<char>,
    stem: Seq<char>,
)
    requires
        old(s).wf(),
        call_ensures(Store::trim, (s, keep), res),
        is_given_up(old(s)@, final(s)@, file, stem),
    ensures
        crate::text::views(res.files@).contains(file),
{
    old(s).lemma_valid();
    lemma_sweep_gives_up(old(s)@, final(s)@, keep, res, file, stem);
}

/// The same where the history is held to its limit, and where the limit is set.
pub proof fn law_limit_gives_files_up(
    s: &mut Store,
    limit: i64,
    res: Swept,
    t: &mut Store,
    set: Swept,
    file: Seq<char>,
    stem: Seq<char>,
)
    requires
        old(s).wf(),
        old(t).wf(),
        old(t)@ == old(s)@,
        call_ensures(enforce_limit, (s, limit), res),
        call_ensures(set_history_limit, (t, limit), set),
        limit > 0,
        is_given_up(old(s)@, final(s)@, file, stem),
    ensures
        crate::text::views(res.files@).contains(file),
        crate::text::views(set.files@).contains(file),
{
    old(s).lemma_valid();
    lemma_sweep_gives_up(old(s)@, final(s)@, limit, res, file, stem);
    lemma_sweep_gives_up(old(s)@, final(s)@, limit, set, file, stem);
}

/// The same where an event comes in: what goes is what is over the limit once it is inserted.
pub proof fn law_event_gives_files_up(
    s: &mut Store,
    ev: &ClipEvent,
    on_disk: &Option<Vec<u8>>,
    res: (Result<i64, StoreError>, Swept),
    t: &mut Store,
    id: Result<i64, StoreError>,
    before: &Store,
    limit: i64,
    file: Seq<char>,
    stem: Seq<char>,
)
    requires
        old(s).wf(),
        call_ensures(take_in, (s, ev, on_disk), res),
        old(t).wf(),
        old(t)@ == old(s)@,
        call_ensures(Store::insert, (t, ev, on_disk), id),
        before.wf(),
        before@ == old(s)@,
        call_ensures(history_limit, (before,), limit),
        limit > 0,
        is_given_up(final(t)@, final(s)@, file, stem),
    ensures
        crate::text::views(res.1.files@).contains(file),
{
    final(t).lemma_valid();
    lemma_sweep_gives_up(final(t)@, final(s)@, limit, res.1, file, stem);
}

proof fn lemma_sweep_gives_up(
    v: crate::store::StoreView,
    after: crate::store::StoreView,
    keep: i64,
    res: Swept,
    file: Seq<char>,
    stem: Seq<char>,
)
    requires
        v.valid(),
        after.clips == crate::store::deletion::kept(
            v.clips,
            crate::store::deletion::trim_victims(v.clips, keep),
        ),
        after.todos == v.todos,
        crate::store::deletion::is_sweep(
            res,
            v.clips,
            v.todos,
            crate::store::deletion::trim_victims(v.clips, keep),
        ),
        is_given_up(v, after, file, stem),
    ensures
        crate::text::views(res.files@).contains(file),
{
    let clips = v.clips;
    let victims = crate::store::deletion::trim_victims(clips, keep);
    crate::store::deletion::lemma_victims(clips, keep);
    crate::seqs::lemma_filter_elements(clips, crate::store::deletion::not_among(victims));
    let c = choose|c: crate::rows::ClipView| #[trigger]
        is_gone(v, after, c) && has_file(c, file);
    assert(victims.contains(c));
    let i = choose|i: int| 0 <= i < victims.len() && victims[i] == c;
    let j = lemma_last_owner(victims, file, i, victims.len() - 1);
    let stems = choose|stems: Seq<crate::store::deletion::Stems>| #[trigger]
        crate::store::deletion::are_all_given_stems(victims, stems) && crate::text::views(
            res.files@,
        ) == crate::store::deletion::trim_files(clips, v.todos, victims, stems);
    assert forall|i: int| 0 <= i < victims.len() implies #[trigger]
        crate::store::deletion::are_stems_of(victims[i], stems[i]) by {
        assert(crate::store::deletion::are_given_stems_of(victims[i], stems[i]));
    }
    lemma_nobody_refers(after, file, stem);
    assert forall|p: Option<Seq<char>>| #[trigger]
        crate::store::blobs::refers(p, stem) == mentions(p, stem) by {
        if let Some(path) = p {
            crate::laws::patterns::lemma_part_found(stem, path);
        }
    }
    let (dir, name) = choose|dir: Seq<char>, name: Seq<char>|
        file == #[trigger] (dir + name) && crate::store::blobs::plain_dir(dir)
            && crate::store::blobs::plain_name(name) && is_stem_and_dot(name, stem);
    assert forall|k: int|
        0 <= k < clips.len() && crate::store::blobs::clip_refers_to(dir + name)(
            #[trigger] clips[k],
        ) implies victims.take(j + 1).contains(clips[k]) by {
        let d = clips[k];
        assert(clips.contains(d));
        let x = choose|x: Seq<char>| #[trigger]
            crate::store::blobs::is_stem(file, Some(x)) && crate::store::blobs::clip_refers(x)(d);
        lemma_plain_stem(file, stem, Some(x));
        if after.clips.contains(d) {
            let m = choose|m: int| 0 <= m < after.clips.len() && after.clips[m] == d;
            assert(!mentions(after.clips[m].image_path, stem));
        }
        assert(is_gone(v, after, d));
        assert(victims.contains(d));
        let m = choose|m: int| 0 <= m < victims.len() && victims[m] == d;
        assert(has_file(victims[m], file));
        assert(m <= j);
        assert(victims.take(j + 1)[m] == d);
    }
    crate::store::deletion::law_trim_gives_files_up(v, victims, stems, j, dir, name);
}

proof fn lemma_last_owner(
    victims: Seq<crate::rows::ClipView>,
    file: Seq<char>,
    i: int,
    n: int,
) -> (j: int)
    requires
        0 <= i <= n < victims.len(),
        has_file(victims[i], file),
        forall|m: int| n < m < victims.len() ==> !has_file(#[trigger] victims[m], file),
    ensures
        i <= j < victims.len(),
        has_file(victims[j], file),
        forall|m: int| j < m < victims.len() ==> !has_file(#[trigger] victims[m], file),
    decreases n,
{
    if has_file(victims[n], file) {
        n
    } else {
        lemma_last_owner(victims, file, i, n - 1)
    }
}

/// Deleting a todo takes its row out and leaves all else as it is. Its image goes where no row
/// but the todo's own mentions it.
pub proof fn law_todo_deleted(
    s: &mut Store,
    id: i64,
    res: Option<String>,
    k: int,
    before: &Store,
    stem: &str,
    n: u128,
)
    requires
        old(s).wf(),
        call_ensures(Store::todos_delete, (s, id), res),
        0 <= k < old(s)@.todos.len(),
        old(s)@.todos[k].id == id,
        before@ == old(s)@,
        old(s)@.todos[k].image_path matches Some(p) ==> is_plain_file(p, stem@),
        call_ensures(Store::image_references, (before, stem), n),
    ensures
        final(s)@.todos == old(s)@.todos.remove(k),
        final(s)@.clips == old(s)@.clips,
        final(s)@.settings == old(s)@.settings,
        final(s)@.blob_dir == old(s)@.blob_dir,
        res is Some <==> old(s)@.todos[k].image_path is Some && n <= 1,
        res is Some ==> Some(res->0@) == old(s)@.todos[k].image_path,
{
    old(s).lemma_valid();
    let todos = old(s)@.todos;
    let t = todos[k];
    lemma_one_todo_removed(todos, k);
    crate::store::todos::lemma_todo_index(todos, k);
    let given = choose|given: Option<Seq<char>>| #[trigger]
        crate::store::deletion::is_given_stem_for(t.image_path, given) && crate::rows::opt_view(res)
            == crate::store::deletion::todo_file(old(s)@.clips, todos, t, given);
    if let Some(p) = t.image_path {
        lemma_plain_stem(p, stem@, given);
    }
}

proof fn lemma_one_todo_removed(todos: Seq<crate::rows::TodoView>, k: int)
    requires
        crate::rows::todo_ids_rise(todos),
        0 <= k < todos.len(),
    ensures
        crate::store::deletion::todos_without(todos, todos[k].id) == todos.remove(k),
{
    crate::laws::todos::lemma_ids_apart(todos, k);
    crate::seqs::lemma_filter_remove(todos, crate::store::deletion::other_todo(todos[k].id), k);
}

/// The same by a stem that is handed over.
pub proof fn law_todo_deleted_by_stem(
    s: &mut Store,
    id: i64,
    stem: &Option<String>,
    res: Option<String>,
    k: int,
    before: &Store,
    a: &str,
    n: u128,
)
    requires
        old(s).wf(),
        call_ensures(Store::todos_delete_by_stem, (s, id, stem), res),
        0 <= k < old(s)@.todos.len(),
        old(s)@.todos[k].id == id,
        before@ == old(s)@,
        stem matches Some(x) ==> a@ == x@,
        call_ensures(Store::image_references, (before, a), n),
    ensures
        final(s)@.todos == old(s)@.todos.remove(k),
        final(s)@.clips == old(s)@.clips,
        final(s)@.settings == old(s)@.settings,
        final(s)@.blob_dir == old(s)@.blob_dir,
        res is Some <==> old(s)@.todos[k].image_path is Some && stem is Some && n <= 1,
        res is Some ==> Some(res->0@) == old(s)@.todos[k].image_path,
{
    old(s).lemma_valid();
    lemma_one_todo_removed(old(s)@.todos, k);
    crate::store::todos::lemma_todo_index(old(s)@.todos, k);
}

/// Deleting a todo that is not there changes nothing and gives no file up.
pub proof fn law_absent_todo_deleted(s: &mut Store, id: i64, res: Option<String>)
    requires
        old(s).wf(),
        call_ensures(Store::todos_delete, (s, id), res),
        forall|i: int| 0 <= i < old(s)@.todos.len() ==> (#[trigger] old(s)@.todos[i]).id != id,
    ensures
        final(s)@ == old(s)@,
        res is None,
{
    crate::seqs::lemma_filter_all(old(s)@.todos, crate::store::deletion::other_todo(id));
}

} // verus!
