//! Deleting rows, and which blob files that leaves without a reference.

use super::blobs::stem_of;
use super::Store;
use crate::order::list_where;
use crate::rows::ClipRow;
use vstd::prelude::*;

verus! {

/// The stems of a clip's two paths, image first.
pub type Stems = (Option<Seq<char>>, Option<Seq<char>>);

/// Whether `stem` can be the stem of the file at an optional path.
pub open spec fn is_stem_for(path: Option<Seq<char>>, stem: Option<Seq<char>>) -> bool {
    match path {
        Some(p) => super::blobs::is_stem(p, stem),
        None => stem is None,
    }
}

pub open spec fn are_stems_of(c: crate::rows::ClipView, stems: Stems) -> bool {
    is_stem_for(c.image_path, stems.0) && is_stem_for(c.html_path, stems.1)
}

/// Whether `stem` is what the platform gave for the stem of the file at an optional path.
pub open spec fn is_given_stem_for(path: Option<Seq<char>>, stem: Option<Seq<char>>) -> bool {
    &&& is_stem_for(path, stem)
    &&& path is Some ==> super::blobs::is_given_stem(path->0, stem)
}

pub open spec fn are_given_stems_of(c: crate::rows::ClipView, stems: Stems) -> bool {
    is_given_stem_for(c.image_path, stems.0) && is_given_stem_for(c.html_path, stems.1)
}

/// The file at `path`, where at most `most` rows refer to it.
pub open spec fn file_if_unreferenced(
    clips: Seq<crate::rows::ClipView>,
    todos: Seq<crate::rows::TodoView>,
    path: Option<Seq<char>>,
    stem: Option<Seq<char>>,
    most: nat,
) -> Seq<Seq<char>> {
    if path is Some && stem is Some && super::blobs::references(clips, todos, stem->0) <= most {
        seq![path->0]
    } else {
        seq![]
    }
}

/// The files of clip `c` that at most `most` rows refer to.
pub open spec fn clip_files(
    clips: Seq<crate::rows::ClipView>,
    todos: Seq<crate::rows::TodoView>,
    c: crate::rows::ClipView,
    stems: Stems,
    most: nat,
) -> Seq<Seq<char>> {
    file_if_unreferenced(clips, todos, c.image_path, stems.0, most) + file_if_unreferenced(
        clips,
        todos,
        c.html_path,
        stems.1,
        most,
    )
}

pub open spec fn other_clip(id: i64) -> spec_fn(crate::rows::ClipView) -> bool {
    |c: crate::rows::ClipView| c.id != id
}

/// The clips without clip `id`.
pub open spec fn clips_without(
    clips: Seq<crate::rows::ClipView>,
    id: i64,
) -> Seq<crate::rows::ClipView> {
    clips.filter(other_clip(id))
}

pub open spec fn not_among(victims: Seq<crate::rows::ClipView>) -> spec_fn(
    crate::rows::ClipView,
) -> bool {
    |c: crate::rows::ClipView| !victims.contains(c)
}

/// The clips without the victims.
pub open spec fn kept(
    clips: Seq<crate::rows::ClipView>,
    victims: Seq<crate::rows::ClipView>,
) -> Seq<crate::rows::ClipView> {
    clips.filter(not_among(victims))
}

/// The clips that are not pinned, from the latest on, without the first `keep` of them.
pub open spec fn trim_victims(clips: Seq<crate::rows::ClipView>, keep: i64) -> Seq<
    crate::rows::ClipView,
> {
    let loose = crate::order::listing(
        clips,
        super::clips::with_pin(false),
        crate::rows::clip_order(),
    );
    if keep <= 0 {
        loose
    } else if keep >= loose.len() {
        seq![]
    } else {
        loose.skip(keep as int)
    }
}

/// The files that become garbage when the victims are deleted one by one: those of each victim
/// that no row refers to once it is gone.
pub open spec fn trim_files(
    clips: Seq<crate::rows::ClipView>,
    todos: Seq<crate::rows::TodoView>,
    victims: Seq<crate::rows::ClipView>,
    stems: Seq<Stems>,
) -> Seq<Seq<char>>
    decreases victims.len(),
{
    if victims.len() == 0 {
        seq![]
    } else {
        trim_files(clips, todos, victims.drop_last(), stems.drop_last()) + clip_files(
            kept(clips, victims),
            todos,
            victims.last(),
            stems.last(),
            0,
        )
    }
}

/// The files of the victims that no row refers to.
pub open spec fn clear_files(
    clips: Seq<crate::rows::ClipView>,
    todos: Seq<crate::rows::TodoView>,
    victims: Seq<crate::rows::ClipView>,
    stems: Seq<Stems>,
) -> Seq<Seq<char>>
    decreases victims.len(),
{
    if victims.len() == 0 {
        seq![]
    } else {
        clear_files(clips, todos, victims.drop_last(), stems.drop_last()) + clip_files(
            clips,
            todos,
            victims.last(),
            stems.last(),
            0,
        )
    }
}

/// Whether no row has the path `file`.
pub open spec fn unreferenced(v: super::StoreView, file: Seq<char>) -> bool {
    &&& forall|i: int|
        0 <= i < v.clips.len() ==> (#[trigger] v.clips[i]).image_path != Some(file)
            && v.clips[i].html_path != Some(file)
    &&& forall|i: int| 0 <= i < v.todos.len() ==> (#[trigger] v.todos[i]).image_path != Some(file)
}

/// The rows that were deleted, and the files that became garbage with them.
#[derive(Debug)]
pub struct Swept {
    pub ids: Vec<i64>,
    pub files: Vec<String>,
}

/// The ids of clips.
pub open spec fn clip_ids(clips: Seq<crate::rows::ClipView>) -> Seq<i64> {
    clips.map_values(|c: crate::rows::ClipView| c.id)
}

fn ids_of(rows: &Vec<ClipRow>) -> (res: Vec<i64>)
    ensures
        res@ == clip_ids(crate::order::row_views(rows@)),
{
    let mut out: Vec<i64> = Vec::new();
    for i in 0..rows.len()
        invariant
            out@.len() == i,
            forall|k: int| 0 <= k < i ==> #[trigger] out@[k] == rows@[k].id,
    {
        out.push(rows[i].id);
    }
    assert(out@ =~= clip_ids(crate::order::row_views(rows@)));
    out
}

proof fn lemma_no_references(v: super::StoreView, path: Seq<char>, stem: Seq<char>)
    requires
        super::blobs::is_stem(path, Some(stem)),
        !path.contains('\0'),
        super::blobs::references(v.clips, v.todos, stem) == 0,
    ensures
        unreferenced(v, path),
{
    super::blobs::lemma_refers_to_itself(path, stem);
    assert forall|i: int| 0 <= i < v.clips.len() implies (#[trigger] v.clips[i]).image_path != Some(
        path,
    ) && v.clips[i].html_path != Some(path) by {
        if v.clips[i].image_path == Some(path) || v.clips[i].html_path == Some(path) {
            crate::seqs::lemma_filter_one(v.clips, super::blobs::clip_refers(stem), i);
        }
    }
    assert forall|i: int| 0 <= i < v.todos.len() implies (#[trigger] v.todos[i]).image_path != Some(
        path,
    ) by {
        if v.todos[i].image_path == Some(path) {
            crate::seqs::lemma_filter_one(v.todos, super::blobs::todo_refers(stem), i);
        }
    }
}

/// The stem of the file at an optional path.
fn stem_for(path: &Option<String>) -> (res: Option<String>)
    ensures
        is_given_stem_for(crate::rows::opt_view(*path), crate::rows::opt_view(res)),
{
    match path {
        Some(p) => stem_of(p.as_str()),
        None => None,
    }
}

impl Store {
    /// The file at `path`, where at most `most` rows refer to it by `stem`.
    fn push_if_unreferenced(
        &self,
        files: &mut Vec<String>,
        path: &Option<String>,
        stem: &Option<String>,
        most: u128,
    )
        ensures
            crate::text::views(final(files)@) == crate::text::views(old(files)@)
                + file_if_unreferenced(
                self@.clips,
                self@.todos,
                crate::rows::opt_view(*path),
                crate::rows::opt_view(*stem),
                most as nat,
            ),
    {
        if let (Some(p), Some(s)) = (path, stem) {
            if self.references(s.as_str()) <= most {
                files.push(p.clone());
                assert(crate::text::views(files@) =~= crate::text::views(old(files)@) + seq![p@]);
                return;
            }
        }
        assert(crate::text::views(files@) =~= crate::text::views(old(files)@) + Seq::empty());
    }

    /// The files of a clip that at most `most` rows refer to by the given stems.
    pub fn garbage_of(
        &self,
        row: &ClipRow,
        image_stem: &Option<String>,
        html_stem: &Option<String>,
        most: u128,
    ) -> (res: Vec<String>)
        ensures
            crate::text::views(res@) == clip_files(
                self@.clips,
                self@.todos,
                row@,
                (crate::rows::opt_view(*image_stem), crate::rows::opt_view(*html_stem)),
                most as nat,
            ),
    {
        let mut files: Vec<String> = Vec::new();
        self.push_if_unreferenced(&mut files, &row.image_path, image_stem, most);
        self.push_if_unreferenced(&mut files, &row.html_path, html_stem, most);
        assert(crate::text::views(files@) =~= clip_files(
            self@.clips,
            self@.todos,
            row@,
            (crate::rows::opt_view(*image_stem), crate::rows::opt_view(*html_stem)),
            most as nat,
        ));
        files
    }

    /// Deletes the row of clip `id`, where there is one.
    pub fn remove_clip(&mut self, id: i64)
        requires
            old(self).wf(),
        ensures
            final(self).wf(),
            final(self)@ == (super::StoreView {
                clips: clips_without(old(self)@.clips, id),
                ..old(self)@
            }),
    {
        let ghost v = self@;
        proof {
            crate::seqs::lemma_filter_rises(
                v.clips,
                other_clip(id),
                |c: crate::rows::ClipView| c.id as int,
            );
        }
        match self.find_clip(id) {
            Some(i) => {
                let row = self.clips.remove(i);
                proof {
                    assert forall|k: int|
                        0 <= k < v.clips.len() && k != i implies other_clip(id)(
                        #[trigger] v.clips[k],
                    ) by {
                        if k < i {
                            assert(v.clips[k].id < v.clips[i as int].id);
                        } else {
                            assert(v.clips[i as int].id < v.clips[k].id);
                        }
                    }
                    crate::seqs::lemma_filter_remove(v.clips, other_clip(id), i as int);
                    assert(self@.clips =~= v.clips.remove(i as int));
                }
            },
            None => {
                proof {
                    crate::seqs::lemma_filter_all(v.clips, other_clip(id));
                }
            },
        }
    }

    /// Deletes clip `id` and gives the files that become garbage with it: those that only one row
    /// refers to, by the given stems.
    pub fn clip_delete_by_stems(
        &mut self,
        id: i64,
        image_stem: &Option<String>,
        html_stem: &Option<String>,
    ) -> (res: Vec<String>)
        requires
            old(self).wf(),
        ensures
            final(self).wf(),
            final(self)@ == (super::StoreView {
                clips: clips_without(old(self)@.clips, id),
                ..old(self)@
            }),
            crate::text::views(res@) == match super::clips::clip_at(old(self)@.clips, id) {
                Some(c) => clip_files(
                    old(self)@.clips,
                    old(self)@.todos,
                    c,
                    (crate::rows::opt_view(*image_stem), crate::rows::opt_view(*html_stem)),
                    1,
                ),
                None => seq![],
            },
    {
        let files = match self.find_clip(id) {
            Some(i) => self.garbage_of(&self.clips[i], image_stem, html_stem, 1),
            None => {
                let none: Vec<String> = Vec::new();
                assert(crate::text::views(none@) =~= seq![]);
                none
            },
        };
        self.remove_clip(id);
        files
    }

    /// Deletes clip `id` and gives the files that become garbage with it. No row that is left has
    /// the path of such a file.
    pub fn clip_delete(&mut self, id: i64) -> (res: Vec<String>)
        requires
            old(self).wf(),
        ensures
            final(self).wf(),
            final(self)@ == (super::StoreView {
                clips: clips_without(old(self)@.clips, id),
                ..old(self)@
            }),
            match super::clips::clip_at(old(self)@.clips, id) {
                Some(c) => exists|stems: Stems| #[trigger]
                    are_given_stems_of(c, stems) && crate::text::views(res@) == clip_files(
                        old(self)@.clips,
                        old(self)@.todos,
                        c,
                        stems,
                        1,
                    ),
                None => res@.len() == 0,
            },
            all_unreferenced(final(self)@, res@),
    {
        let ghost v = self@;
        match self.find_clip(id) {
            Some(i) => {
                let image_stem = stem_for(&self.clips[i].image_path);
                let html_stem = stem_for(&self.clips[i].html_path);
                let ghost c = v.clips[i as int];
                let ghost stems = (
                    crate::rows::opt_view(image_stem),
                    crate::rows::opt_view(html_stem),
                );
                assert(are_given_stems_of(c, stems));
                let files = self.clip_delete_by_stems(id, &image_stem, &html_stem);
                proof {
                    lemma_delete_safe(v, i as int, stems);
                    assert forall|k: int|
                        0 <= k < files@.len() && !(#[trigger] files@[k])@.contains(
                            '\0',
                        ) implies unreferenced(self@, files@[k]@) by {
                        assert(crate::text::views(files@)[k] == files@[k]@);
                    }
                }
                files
            },
            None => {
                let none: Option<String> = None;
                let files = self.clip_delete_by_stems(id, &none, &none);
                assert(crate::text::views(files@).len() == 0);
                files
            },
        }
    }
}

/// A file that at most one row refers to has no row left once that row is gone.
proof fn lemma_delete_safe(v: super::StoreView, i: int, stems: Stems)
    requires
        v.valid(),
        0 <= i < v.clips.len(),
        are_stems_of(v.clips[i], stems),
    ensures
        ({
            let files = clip_files(v.clips, v.todos, v.clips[i], stems, 1);
            let after = super::StoreView {
                clips: clips_without(v.clips, v.clips[i].id),
                ..v
            };
            forall|k: int|
                0 <= k < files.len() && !(#[trigger] files[k]).contains('\0') ==> unreferenced(
                    after,
                    files[k],
                )
        }),
{
    let c = v.clips[i];
    let files = clip_files(v.clips, v.todos, c, stems, 1);
    let after = super::StoreView { clips: clips_without(v.clips, c.id), ..v };
    assert forall|k: int|
        0 <= k < files.len() && !(#[trigger] files[k]).contains('\0') implies unreferenced(
        after,
        files[k],
    ) by {
        let f = files[k];
        let a = file_if_unreferenced(v.clips, v.todos, c.image_path, stems.0, 1);
        let stem = if k < a.len() {
            stems.0->0
        } else {
            stems.1->0
        };
        assert(c.image_path == Some(f) || c.html_path == Some(f));
        assert(super::blobs::is_stem(f, Some(stem)));
        assert(super::blobs::references(v.clips, v.todos, stem) <= 1);
        super::blobs::lemma_refers_to_itself(f, stem);
        assert(super::blobs::clip_refers(stem)(c));
        crate::seqs::lemma_filter_one(v.clips, super::blobs::clip_refers(stem), i);
        crate::seqs::lemma_filter_elements(v.clips, other_clip(c.id));
        assert forall|j: int| 0 <= j < after.clips.len() implies (
        #[trigger] after.clips[j]).image_path != Some(f) && after.clips[j].html_path != Some(f) by {
            let d = after.clips[j];
            assert(after.clips.contains(d));
            let m = choose|m: int| 0 <= m < v.clips.len() && v.clips[m] == d;
            if d.image_path == Some(f) || d.html_path == Some(f) {
                assert(super::blobs::clip_refers(stem)(v.clips[m]));
                if m < i {
                    crate::seqs::lemma_filter_two(v.clips, super::blobs::clip_refers(stem), m, i);
                } else {
                    crate::seqs::lemma_filter_two(v.clips, super::blobs::clip_refers(stem), i, m);
                }
            }
        }
        assert forall|j: int| 0 <= j < after.todos.len() implies (
        #[trigger] after.todos[j]).image_path != Some(f) by {
            if v.todos[j].image_path == Some(f) {
                crate::seqs::lemma_filter_one(v.todos, super::blobs::todo_refers(stem), j);
            }
        }
    }
}


/// Deleting one victim after another is deleting them all.
proof fn lemma_kept_step(
    clips: Seq<crate::rows::ClipView>,
    victims: Seq<crate::rows::ClipView>,
    k: int,
)
    requires
        crate::rows::clip_ids_rise(clips),
        0 <= k < victims.len(),
        forall|i: int| 0 <= i < victims.len() ==> clips.contains(#[trigger] victims[i]),
    ensures
        clips_without(kept(clips, victims.take(k)), victims[k].id) == kept(
            clips,
            victims.take(k + 1),
        ),
{
    let v = victims[k];
    let a = victims.take(k);
    let b = victims.take(k + 1);
    assert(clips.contains(v));
    let m = choose|m: int| 0 <= m < clips.len() && clips[m] == v;
    assert forall|i: int| 0 <= i < clips.len() implies not_among(b)(#[trigger] clips[i]) == (
    not_among(a)(clips[i]) && other_clip(v.id)(clips[i])) by {
        let c = clips[i];
        assert(b =~= a.push(v));
        assert(b.contains(c) <==> a.contains(c) || c == v) by {
            if a.contains(c) {
                let n = choose|n: int| 0 <= n < a.len() && a[n] == c;
                assert(b[n] == c);
            }
            assert(b[k] == v);
        }
        if c.id == v.id && c != v {
            if i < m {
                assert(clips[i].id < clips[m].id);
            } else {
                assert(clips[m].id < clips[i].id);
            }
        }
    }
    crate::seqs::lemma_filter_twice(clips, not_among(a), other_clip(v.id), not_among(b));
}

/// A file without a row still has none when rows go.
proof fn lemma_unreferenced_stays(v: super::StoreView, w: super::StoreView, file: Seq<char>)
    requires
        unreferenced(v, file),
        w.todos == v.todos,
        forall|i: int| 0 <= i < w.clips.len() ==> v.clips.contains(#[trigger] w.clips[i]),
    ensures
        unreferenced(w, file),
{
    assert forall|i: int| 0 <= i < w.clips.len() implies (#[trigger] w.clips[i]).image_path != Some(
        file,
    ) && w.clips[i].html_path != Some(file) by {
        let m = choose|m: int| 0 <= m < v.clips.len() && v.clips[m] == w.clips[i];
        assert(v.clips[m].image_path != Some(file));
    }
}

/// The files that no row refers to belong to no row.
proof fn lemma_clip_files_safe(v: super::StoreView, c: crate::rows::ClipView, stems: Stems)
    requires
        are_stems_of(c, stems),
    ensures
        ({
            let files = clip_files(v.clips, v.todos, c, stems, 0);
            forall|k: int|
                0 <= k < files.len() && !(#[trigger] files[k]).contains('\0') ==> unreferenced(
                    v,
                    files[k],
                )
        }),
{
    let files = clip_files(v.clips, v.todos, c, stems, 0);
    assert forall|k: int|
        0 <= k < files.len() && !(#[trigger] files[k]).contains('\0') implies unreferenced(
        v,
        files[k],
    ) by {
        let a = file_if_unreferenced(v.clips, v.todos, c.image_path, stems.0, 0);
        if k < a.len() {
            lemma_no_references(v, files[k], stems.0->0);
        } else {
            lemma_no_references(v, files[k], stems.1->0);
        }
    }
}

/// Whether the stems can be those of the clips, one after the other.
pub open spec fn are_all_stems(clips: Seq<crate::rows::ClipView>, stems: Seq<Stems>) -> bool {
    stems.len() == clips.len() && forall|i: int|
        0 <= i < clips.len() ==> #[trigger] are_stems_of(clips[i], stems[i])
}

/// Whether the stems are what the platform gave for the clips, one after the other.
pub open spec fn are_all_given_stems(clips: Seq<crate::rows::ClipView>, stems: Seq<Stems>) -> bool {
    stems.len() == clips.len() && forall|i: int|
        0 <= i < clips.len() ==> #[trigger] are_given_stems_of(clips[i], stems[i])
}

/// Whether `res` is what comes of deleting the victims one by one: their ids, and the files that
/// become garbage with them.
pub open spec fn is_sweep(
    res: Swept,
    clips: Seq<crate::rows::ClipView>,
    todos: Seq<crate::rows::TodoView>,
    victims: Seq<crate::rows::ClipView>,
) -> bool {
    &&& res.ids@ == clip_ids(victims)
    &&& exists|stems: Seq<Stems>| #[trigger]
        are_all_given_stems(victims, stems) && crate::text::views(res.files@) == trim_files(
            clips,
            todos,
            victims,
            stems,
        )
}

/// Whether no row has the path of one of the files.
pub open spec fn all_unreferenced(v: super::StoreView, files: Seq<String>) -> bool {
    forall|k: int|
        0 <= k < files.len() && !(#[trigger] files[k])@.contains('\0') ==> unreferenced(
            v,
            files[k]@,
        )
}

impl Store {
    /// The clips that are over the limit: those that are not pinned, from the latest on, without
    /// the first `keep` of them.
    pub fn trim_victims(&self, keep: i64) -> (res: Vec<ClipRow>)
        requires
            self.wf(),
        ensures
            crate::order::row_views(res@) == trim_victims(self@.clips, keep),
    {
        proof {
            self.lemma_listable();
        }
        let mut flags: Vec<bool> = Vec::new();
        for i in 0..self.clips.len()
            invariant
                flags@.len() == i,
                forall|k: int|
                    0 <= k < i ==> #[trigger] flags@[k] == super::clips::with_pin(false)(
                        self.clips@[k]@,
                    ),
        {
            flags.push(!self.clips[i].pinned);
        }
        let idx = list_where(&self.clips, &flags);
        let ghost loose = crate::order::listing(
            self@.clips,
            super::clips::with_pin(false),
            crate::rows::clip_order(),
        );
        assert(crate::order::picked(idx@, self.clips@) == loose);
        let n: usize = if keep <= 0 {
            0
        } else if (keep as u64) as u128 >= idx.len() as u128 {
            idx.len()
        } else {
            keep as usize
        };
        let mut out: Vec<ClipRow> = Vec::new();
        for k in n..idx.len()
            invariant
                n <= idx@.len(),
                crate::order::picked(idx@, self.clips@) == loose,
                forall|k: int| 0 <= k < idx@.len() ==> #[trigger] idx@[k] < self.clips@.len(),
                out@.len() == k - n,
                crate::order::row_views(out@) == loose.subrange(n as int, k as int),
        {
            let ghost prev = crate::order::row_views(out@);
            out.push(self.clips[idx[k]].clone());
            assert(loose[k as int] == self.clips@[idx@[k as int] as int]@);
            assert(crate::order::row_views(out@) =~= prev.push(loose[k as int]));
            assert(loose.subrange(n as int, k + 1) =~= prev.push(loose[k as int]));
        }
        assert(loose.subrange(n as int, loose.len() as int) =~= loose.skip(n as int));
        assert(loose.skip(0) =~= loose);
        assert(loose.skip(loose.len() as int) =~= seq![]);
        out
    }

    /// Deletes the oldest clips that are not pinned until `keep` of them are left, and gives the
    /// files that become garbage with them. No row that is left has the path of such a file.
    pub fn trim(&mut self, keep: i64) -> (res: Swept)
        requires
            old(self).wf(),
        ensures
            final(self).wf(),
            final(self)@ == (super::StoreView {
                clips: kept(old(self)@.clips, trim_victims(old(self)@.clips, keep)),
                ..old(self)@
            }),
            is_sweep(
                res,
                old(self)@.clips,
                old(self)@.todos,
                trim_victims(old(self)@.clips, keep),
            ),
            all_unreferenced(final(self)@, res.files@),
    {
        let ghost v = self@;
        let victims = self.trim_victims(keep);
        let ghost vv = trim_victims(v.clips, keep);
        let mut files: Vec<String> = Vec::new();
        let ghost mut stems: Seq<Stems> = seq![];
        proof {
            lemma_victims(v.clips, keep);
            crate::seqs::lemma_filter_all(v.clips, not_among(vv.take(0)));
            assert(crate::text::views(files@) =~= seq![]);
        }
        for k in 0..victims.len()
            invariant
                v.valid(),
                self.wf(),
                vv == crate::order::row_views(victims@),
                forall|i: int| 0 <= i < vv.len() ==> v.clips.contains(#[trigger] vv[i]),
                self@ == (super::StoreView { clips: kept(v.clips, vv.take(k as int)), ..v }),
                are_all_given_stems(vv.take(k as int), stems),
                crate::text::views(files@) == trim_files(
                    v.clips,
                    v.todos,
                    vv.take(k as int),
                    stems,
                ),
                forall|m: int|
                    0 <= m < files@.len() && !(#[trigger] files@[m])@.contains('\0')
                        ==> unreferenced(self@, files@[m]@),
        {
            let row = &victims[k];
            let ghost before = self@;
            let ghost f0 = files@;
            let ghost s0 = stems;
            assert(vv[k as int] == row@);
            self.remove_clip(row.id);
            let image_stem = stem_for(&row.image_path);
            let html_stem = stem_for(&row.html_path);
            let mut more = self.garbage_of(row, &image_stem, &html_stem, 0);
            let ghost m0 = more@;
            files.append(&mut more);
            proof {
                let s = (crate::rows::opt_view(image_stem), crate::rows::opt_view(html_stem));
                stems = s0.push(s);
                assert(are_given_stems_of(row@, s));
                lemma_kept_step(v.clips, vv, k as int);
                let now = vv.take(k + 1);
                assert(now.drop_last() =~= vv.take(k as int));
                assert(now.last() == row@);
                assert(stems.drop_last() =~= s0);
                assert forall|i: int| 0 <= i < now.len() implies #[trigger] are_given_stems_of(
                    now[i],
                    stems[i],
                ) by {
                    if i < k {
                        assert(are_given_stems_of(vv.take(k as int)[i], s0[i]));
                    }
                }
                assert(crate::text::views(files@) =~= crate::text::views(f0) + crate::text::views(
                    m0,
                ));
                lemma_clip_files_safe(self@, row@, s);
                crate::seqs::lemma_filter_elements(before.clips, other_clip(row.id));
                assert forall|i: int| 0 <= i < self@.clips.len() implies before.clips.contains(
                    #[trigger] self@.clips[i],
                ) by {
                    assert(self@.clips.contains(self@.clips[i]));
                }
                assert forall|m: int|
                    0 <= m < files@.len() && !(#[trigger] files@[m])@.contains(
                        '\0',
                    ) implies unreferenced(self@, files@[m]@) by {
                    if m < f0.len() {
                        assert(files@[m] == f0[m]);
                        lemma_unreferenced_stays(before, self@, files@[m]@);
                    } else {
                        assert(files@[m] == m0[m - f0.len()]);
                        assert(crate::text::views(m0)[m - f0.len()] == files@[m]@);
                    }
                }
            }
        }
        assert(vv.take(vv.len() as int) =~= vv);
        Swept { ids: ids_of(&victims), files }
    }
}

/// The victims of trimming are clips.
pub proof fn lemma_victims(clips: Seq<crate::rows::ClipView>, keep: i64)
    requires
        crate::rows::clip_ids_rise(clips),
    ensures
        forall|i: int|
            0 <= i < trim_victims(clips, keep).len() ==> clips.contains(
                #[trigger] trim_victims(clips, keep)[i],
            ) && !trim_victims(clips, keep)[i].pinned,
{
    let loose = crate::order::listing(
        clips,
        super::clips::with_pin(false),
        crate::rows::clip_order(),
    );
    crate::rows::lemma_clip_order(clips);
    crate::order::lemma_listing(clips, super::clips::with_pin(false), crate::rows::clip_order());
    let victims = trim_victims(clips, keep);
    assert forall|i: int| 0 <= i < victims.len() implies clips.contains(#[trigger] victims[i])
        && !victims[i].pinned by {
        let j = if keep <= 0 {
            i
        } else {
            i + keep
        };
        assert(victims[i] == loose[j]);
        assert(loose.contains(loose[j]));
    }
}

impl Store {
    /// Takes the clips that are not pinned out of the store.
    fn take_loose(&mut self) -> (res: Vec<ClipRow>)
        requires
            old(self).wf(),
        ensures
            final(self).wf(),
            final(self)@ == (super::StoreView {
                clips: old(self)@.clips.filter(super::clips::with_pin(true)),
                ..old(self)@
            }),
            crate::order::row_views(res@) == old(self)@.clips.filter(super::clips::with_pin(false)),
    {
        let ghost v = self@;
        let ghost pinned = super::clips::with_pin(true);
        let ghost loose = super::clips::with_pin(false);
        let mut stay: Vec<ClipRow> = Vec::new();
        let mut go: Vec<ClipRow> = Vec::new();
        proof {
            reveal(Seq::filter);
            assert(crate::order::row_views(stay@) =~= v.clips.take(0).filter(pinned));
            assert(crate::order::row_views(go@) =~= v.clips.take(0).filter(loose));
        }
        for i in 0..self.clips.len()
            invariant
                v == self@,
                *self == *old(self),
                pinned == super::clips::with_pin(true),
                loose == super::clips::with_pin(false),
                crate::order::row_views(stay@) == v.clips.take(i as int).filter(pinned),
                crate::order::row_views(go@) == v.clips.take(i as int).filter(loose),
        {
            let row = self.clips[i].clone();
            let ghost s0 = crate::order::row_views(stay@);
            let ghost g0 = crate::order::row_views(go@);
            let ghost r = row@;
            if row.pinned {
                stay.push(row);
                assert(crate::order::row_views(stay@) =~= s0.push(r));
            } else {
                go.push(row);
                assert(crate::order::row_views(go@) =~= g0.push(r));
            }
            proof {
                reveal(Seq::filter);
                assert(v.clips.take(i + 1).drop_last() =~= v.clips.take(i as int));
                assert(v.clips.take(i + 1).last() == r);
            }
        }
        assert(v.clips.take(v.clips.len() as int) =~= v.clips);
        proof {
            crate::rows::lemma_clips_filtered(v.clips, pinned);
        }
        self.clips = stay;
        go
    }

    /// Deletes every clip that is not pinned and gives the files that become garbage with them.
    /// No row that is left has the path of such a file.
    pub fn clips_clear(&mut self) -> (res: Swept)
        requires
            old(self).wf(),
        ensures
            final(self).wf(),
            final(self)@ == (super::StoreView {
                clips: old(self)@.clips.filter(super::clips::with_pin(true)),
                ..old(self)@
            }),
            res.ids@ == clip_ids(old(self)@.clips.filter(super::clips::with_pin(false))),
            exists|stems: Seq<Stems>| #[trigger]
                are_all_given_stems(old(self)@.clips.filter(super::clips::with_pin(false)), stems)
                    && crate::text::views(res.files@) == clear_files(
                    final(self)@.clips,
                    final(self)@.todos,
                    old(self)@.clips.filter(super::clips::with_pin(false)),
                    stems,
                ),
            all_unreferenced(final(self)@, res.files@),
    {
        let victims = self.take_loose();
        let ghost v = self@;
        let ghost vv = crate::order::row_views(victims@);
        let mut files: Vec<String> = Vec::new();
        let ghost mut stems: Seq<Stems> = seq![];
        assert(crate::text::views(files@) =~= seq![]);
        for k in 0..victims.len()
            invariant
                v == self@,
                self.wf(),
                vv == crate::order::row_views(victims@),
                are_all_given_stems(vv.take(k as int), stems),
                crate::text::views(files@) == clear_files(
                    v.clips,
                    v.todos,
                    vv.take(k as int),
                    stems,
                ),
                forall|m: int|
                    0 <= m < files@.len() && !(#[trigger] files@[m])@.contains('\0')
                        ==> unreferenced(v, files@[m]@),
        {
            let row = &victims[k];
            let ghost f0 = files@;
            let ghost s0 = stems;
            assert(vv[k as int] == row@);
            let image_stem = stem_for(&row.image_path);
            let html_stem = stem_for(&row.html_path);
            let mut more = self.garbage_of(row, &image_stem, &html_stem, 0);
            let ghost m0 = more@;
            files.append(&mut more);
            proof {
                let s = (crate::rows::opt_view(image_stem), crate::rows::opt_view(html_stem));
                stems = s0.push(s);
                assert(are_given_stems_of(row@, s));
                let now = vv.take(k + 1);
                assert(now.drop_last() =~= vv.take(k as int));
                assert(now.last() == row@);
                assert(stems.drop_last() =~= s0);
                assert forall|i: int| 0 <= i < now.len() implies #[trigger] are_given_stems_of(
                    now[i],
                    stems[i],
                ) by {
                    if i < k {
                        assert(are_given_stems_of(vv.take(k as int)[i], s0[i]));
                    }
                }
                assert(crate::text::views(files@) =~= crate::text::views(f0) + crate::text::views(
                    m0,
                ));
                lemma_clip_files_safe(v, row@, s);
                assert forall|m: int|
                    0 <= m < files@.len() && !(#[trigger] files@[m])@.contains(
                        '\0',
                    ) implies unreferenced(v, files@[m]@) by {
                    if m < f0.len() {
                        assert(files@[m] == f0[m]);
                    } else {
                        assert(files@[m] == m0[m - f0.len()]);
                        assert(crate::text::views(m0)[m - f0.len()] == files@[m]@);
                    }
                }
            }
        }
        assert(vv.take(vv.len() as int) =~= vv);
        Swept { ids: ids_of(&victims), files }
    }
}

pub open spec fn other_todo(id: i64) -> spec_fn(crate::rows::TodoView) -> bool {
    |t: crate::rows::TodoView| t.id != id
}

/// The todos without todo `id`.
pub open spec fn todos_without(
    todos: Seq<crate::rows::TodoView>,
    id: i64,
) -> Seq<crate::rows::TodoView> {
    todos.filter(other_todo(id))
}

/// The file of todo `t`, where it is the only row that refers to it.
pub open spec fn todo_file(
    clips: Seq<crate::rows::ClipView>,
    todos: Seq<crate::rows::TodoView>,
    t: crate::rows::TodoView,
    stem: Option<Seq<char>>,
) -> Option<Seq<char>> {
    if t.image_path is Some && stem is Some && super::blobs::image_references(clips, todos, stem->0) <= 1 {
        t.image_path
    } else {
        None
    }
}

/// Whether no row has the image `file`.
pub open spec fn image_unreferenced(v: super::StoreView, file: Seq<char>) -> bool {
    &&& forall|i: int| 0 <= i < v.clips.len() ==> (#[trigger] v.clips[i]).image_path != Some(file)
    &&& forall|i: int| 0 <= i < v.todos.len() ==> (#[trigger] v.todos[i]).image_path != Some(file)
}

/// An image that only one todo refers to has no row left once that todo is gone.
proof fn lemma_todo_delete_safe(v: super::StoreView, i: int, stem: Seq<char>)
    requires
        v.valid(),
        0 <= i < v.todos.len(),
        v.todos[i].image_path is Some,
        super::blobs::is_stem(v.todos[i].image_path->0, Some(stem)),
        !v.todos[i].image_path->0.contains('\0'),
        super::blobs::image_references(v.clips, v.todos, stem) <= 1,
    ensures
        image_unreferenced(
            (super::StoreView { todos: todos_without(v.todos, v.todos[i].id), ..v }),
            v.todos[i].image_path->0,
        ),
{
    let t = v.todos[i];
    let f = t.image_path->0;
    let after = super::StoreView { todos: todos_without(v.todos, t.id), ..v };
    super::blobs::lemma_refers_to_itself(f, stem);
    crate::seqs::lemma_filter_one(v.todos, super::blobs::todo_refers(stem), i);
    crate::seqs::lemma_filter_elements(v.todos, other_todo(t.id));
    assert forall|j: int| 0 <= j < after.todos.len() implies (#[trigger] after.todos[j]).image_path
        != Some(f) by {
        let d = after.todos[j];
        assert(after.todos.contains(d));
        let m = choose|m: int| 0 <= m < v.todos.len() && v.todos[m] == d;
        if d.image_path == Some(f) {
            assert(super::blobs::todo_refers(stem)(v.todos[m]));
            if m < i {
                crate::seqs::lemma_filter_two(v.todos, super::blobs::todo_refers(stem), m, i);
            } else {
                crate::seqs::lemma_filter_two(v.todos, super::blobs::todo_refers(stem), i, m);
            }
        }
    }
    assert forall|j: int| 0 <= j < after.clips.len() implies (#[trigger] after.clips[j]).image_path
        != Some(f) by {
        if v.clips[j].image_path == Some(f) {
            crate::seqs::lemma_filter_one(v.clips, super::blobs::clip_image_refers(stem), j);
        }
    }
}

impl Store {
    /// Deletes todo `id` and gives the file that becomes garbage with it: its image, where only
    /// one row refers to that by the given stem.
    pub fn todos_delete_by_stem(&mut self, id: i64, stem: &Option<String>) -> (res: Option<String>)
        requires
            old(self).wf(),
        ensures
            final(self).wf(),
            final(self)@ == (super::StoreView {
                todos: todos_without(old(self)@.todos, id),
                ..old(self)@
            }),
            crate::rows::opt_view(res) == match super::todos::todo_at(old(self)@.todos, id) {
                Some(t) => todo_file(
                    old(self)@.clips,
                    old(self)@.todos,
                    t,
                    crate::rows::opt_view(*stem),
                ),
                None => None,
            },
    {
        let ghost v = self@;
        proof {
            crate::seqs::lemma_filter_rises(
                v.todos,
                other_todo(id),
                |t: crate::rows::TodoView| t.id as int,
            );
        }
        match self.find_todo(id) {
            Some(i) => {
                let file = match (&self.todos[i].image_path, stem) {
                    (Some(p), Some(s)) => if self.image_references(s.as_str()) <= 1 {
                        Some(p.clone())
                    } else {
                        None
                    },
                    _ => None,
                };
                let row = self.todos.remove(i);
                proof {
                    assert forall|k: int| 0 <= k < v.todos.len() && k != i implies other_todo(id)(
                        #[trigger] v.todos[k],
                    ) by {
                        if k < i {
                            assert(v.todos[k].id < v.todos[i as int].id);
                        } else {
                            assert(v.todos[i as int].id < v.todos[k].id);
                        }
                    }
                    crate::seqs::lemma_filter_remove(v.todos, other_todo(id), i as int);
                    assert(self@.todos =~= v.todos.remove(i as int));
                }
                file
            },
            None => {
                proof {
                    crate::seqs::lemma_filter_all(v.todos, other_todo(id));
                }
                None
            },
        }
    }

    /// Deletes todo `id` and gives the file that becomes garbage with it. No row that is left has
    /// that image.
    pub fn todos_delete(&mut self, id: i64) -> (res: Option<String>)
        requires
            old(self).wf(),
        ensures
            final(self).wf(),
            final(self)@ == (super::StoreView {
                todos: todos_without(old(self)@.todos, id),
                ..old(self)@
            }),
            match super::todos::todo_at(old(self)@.todos, id) {
                Some(t) => exists|stem: Option<Seq<char>>| #[trigger]
                    is_given_stem_for(t.image_path, stem) && crate::rows::opt_view(res) == todo_file(
                        old(self)@.clips,
                        old(self)@.todos,
                        t,
                        stem,
                    ),
                None => res is None,
            },
            res is Some && !res->0@.contains('\0') ==> image_unreferenced(final(self)@, res->0@),
    {
        let ghost v = self@;
        match self.find_todo(id) {
            Some(i) => {
                let stem = stem_for(&self.todos[i].image_path);
                let ghost t = v.todos[i as int];
                assert(is_given_stem_for(t.image_path, crate::rows::opt_view(stem)));
                let res = self.todos_delete_by_stem(id, &stem);
                proof {
                    if res is Some && !res->0@.contains('\0') {
                        lemma_todo_delete_safe(v, i as int, stem->0@);
                    }
                }
                res
            },
            None => self.todos_delete_by_stem(id, &None),
        }
    }
}

/// The paths of which the file's name is known: a plain name in a directory that ends in a
/// separator.
pub open spec fn known_file(dir: Seq<char>, name: Seq<char>) -> bool {
    &&& super::blobs::plain_dir(dir) || super::blobs::backslash_dir(dir)
    &&& super::blobs::plain_name(name)
}

/// The file of a clip at a known path is given up where none of the rows that count refers to it.
proof fn lemma_given_up(
    clips: Seq<crate::rows::ClipView>,
    todos: Seq<crate::rows::TodoView>,
    c: crate::rows::ClipView,
    stems: Stems,
    dir: Seq<char>,
    name: Seq<char>,
    most: nat,
)
    requires
        known_file(dir, name),
        c.image_path == Some(dir + name) || c.html_path == Some(dir + name),
        are_stems_of(c, stems),
        forall|s: Seq<char>| #[trigger]
            super::blobs::is_stem(dir + name, Some(s)) ==> super::blobs::references(clips, todos, s)
                <= most,
    ensures
        clip_files(clips, todos, c, stems, most).contains(dir + name),
{
    let f = dir + name;
    let a = file_if_unreferenced(clips, todos, c.image_path, stems.0, most);
    let b = file_if_unreferenced(clips, todos, c.html_path, stems.1, most);
    if c.image_path == Some(f) {
        assert(super::blobs::is_stem(f, Some(stems.0->0)));
        assert((a + b)[0] == f);
    } else {
        assert(super::blobs::is_stem(f, Some(stems.1->0)));
        assert((a + b)[a.len() as int] == f);
    }
}

/// Deleting a clip gives up the file of a known path that no other row refers to.
pub proof fn law_last_reference_goes(
    v: super::StoreView,
    i: int,
    stems: Stems,
    dir: Seq<char>,
    name: Seq<char>,
)
    requires
        v.valid(),
        0 <= i < v.clips.len(),
        known_file(dir, name),
        v.clips[i].image_path == Some(dir + name) || v.clips[i].html_path == Some(dir + name),
        are_stems_of(v.clips[i], stems),
        forall|k: int|
            0 <= k < v.clips.len() && k != i ==> !super::blobs::clip_refers_to(dir + name)(
                #[trigger] v.clips[k],
            ),
        forall|k: int|
            0 <= k < v.todos.len() ==> !super::blobs::todo_refers_to(dir + name)(
                #[trigger] v.todos[k],
            ),
    ensures
        clip_files(v.clips, v.todos, v.clips[i], stems, 1).contains(dir + name),
{
    let f = dir + name;
    assert forall|s: Seq<char>| #[trigger]
        super::blobs::is_stem(f, Some(s)) implies super::blobs::references(v.clips, v.todos, s)
        <= 1 by {
        assert forall|k: int| 0 <= k < v.clips.len() && k != i implies !super::blobs::clip_refers(
            s,
        )(#[trigger] v.clips[k]) by {
            assert(!super::blobs::clip_refers_to(f)(v.clips[k]));
        }
        assert forall|k: int| 0 <= k < v.todos.len() implies !super::blobs::todo_refers(s)(
            #[trigger] v.todos[k],
        ) by {
            assert(!super::blobs::todo_refers_to(f)(v.todos[k]));
        }
        crate::seqs::lemma_filter_at_most_one(v.clips, super::blobs::clip_refers(s), i);
        crate::seqs::lemma_filter_none(v.todos, super::blobs::todo_refers(s));
    }
    lemma_given_up(v.clips, v.todos, v.clips[i], stems, dir, name, 1);
}

/// Deleting a clip gives up its blob file where no other row refers to the content address of what
/// the file holds.
pub proof fn law_blob_goes_with_last_clip(
    v: super::StoreView,
    i: int,
    stems: Stems,
    dir: Seq<char>,
    data: Seq<u8>,
    extension: Seq<char>,
)
    requires
        v.valid(),
        0 <= i < v.clips.len(),
        super::blobs::plain_dir(dir) || super::blobs::backslash_dir(dir),
        !dir.contains('\0'),
        extension == ".dib"@ || extension == ".html"@,
        crate::digest::address_of(data).len() > 0,
        v.clips[i].image_path == Some(dir + crate::content::blob_name(data, extension))
            || v.clips[i].html_path == Some(dir + crate::content::blob_name(data, extension)),
        are_stems_of(v.clips[i], stems),
        forall|k: int|
            0 <= k < v.clips.len() && k != i ==> !super::blobs::clip_refers(
                crate::digest::address_of(data),
            )(#[trigger] v.clips[k]),
        forall|k: int|
            0 <= k < v.todos.len() ==> !super::blobs::todo_refers(
                crate::digest::address_of(data),
            )(#[trigger] v.todos[k]),
    ensures
        clip_files(v.clips, v.todos, v.clips[i], stems, 1).contains(
            dir + crate::content::blob_name(data, extension),
        ),
{
    let name = crate::content::blob_name(data, extension);
    let f = dir + name;
    let a = crate::digest::address_of(data);
    super::blobs::law_blob_names(data, extension);
    assert forall|k: int| 0 <= k < v.clips.len() && k != i implies !super::blobs::clip_refers_to(f)(
        #[trigger] v.clips[k],
    ) by {
        let c = v.clips[k];
        if super::blobs::clip_refers_to(f)(c) {
            let s = choose|s: Seq<char>| #[trigger]
                super::blobs::is_stem(f, Some(s)) && super::blobs::clip_refers(s)(c);
            if super::blobs::refers(c.image_path, s) {
                super::blobs::law_blob_references(dir, data, extension, s, c.image_path);
            } else {
                super::blobs::law_blob_references(dir, data, extension, s, c.html_path);
            }
            assert(super::blobs::clip_refers(a)(c));
        }
    }
    assert forall|k: int| 0 <= k < v.todos.len() implies !super::blobs::todo_refers_to(f)(
        #[trigger] v.todos[k],
    ) by {
        let t = v.todos[k];
        if super::blobs::todo_refers_to(f)(t) {
            let s = choose|s: Seq<char>| #[trigger]
                super::blobs::is_stem(f, Some(s)) && super::blobs::todo_refers(s)(t);
            super::blobs::law_blob_references(dir, data, extension, s, t.image_path);
            assert(super::blobs::todo_refers(a)(t));
        }
    }
    law_last_reference_goes(v, i, stems, dir, name);
}

/// Of a clip that is deleted, a file goes exactly where no other row refers to it by the file's
/// stem.
pub proof fn law_file_goes_iff_unreferenced(
    v: super::StoreView,
    i: int,
    file: Seq<char>,
    stem: Seq<char>,
)
    requires
        0 <= i < v.clips.len(),
        v.clips[i].image_path == Some(file) || v.clips[i].html_path == Some(file),
        super::blobs::is_stem(file, Some(stem)),
        !file.contains('\0'),
    ensures
        file_if_unreferenced(v.clips, v.todos, Some(file), Some(stem), 1) == seq![file] <==> {
            &&& forall|k: int|
                0 <= k < v.clips.len() && k != i ==> !super::blobs::clip_refers(stem)(
                    #[trigger] v.clips[k],
                )
            &&& forall|k: int|
                0 <= k < v.todos.len() ==> !super::blobs::todo_refers(stem)(#[trigger] v.todos[k])
        },
{
    let p = super::blobs::clip_refers(stem);
    let q = super::blobs::todo_refers(stem);
    super::blobs::lemma_refers_to_itself(file, stem);
    assert(p(v.clips[i]));
    crate::seqs::lemma_filter_one(v.clips, p, i);
    let others = forall|k: int| 0 <= k < v.clips.len() && k != i ==> !p(#[trigger] v.clips[k]);
    let todos = forall|k: int| 0 <= k < v.todos.len() ==> !q(#[trigger] v.todos[k]);
    if others && todos {
        crate::seqs::lemma_filter_at_most_one(v.clips, p, i);
        crate::seqs::lemma_filter_none(v.todos, q);
    }
    if !others {
        let k = choose|k: int| 0 <= k < v.clips.len() && k != i && p(#[trigger] v.clips[k]);
        if k < i {
            crate::seqs::lemma_filter_two(v.clips, p, k, i);
        } else {
            crate::seqs::lemma_filter_two(v.clips, p, i, k);
        }
    }
    if !todos {
        let k = choose|k: int| 0 <= k < v.todos.len() && q(#[trigger] v.todos[k]);
        crate::seqs::lemma_filter_one(v.todos, q, k);
    }
    assert(Seq::<Seq<char>>::empty().len() != seq![file].len());
}

/// Trimming gives up the file of a known path with the last of the clips that refer to it, where
/// no todo does.
pub proof fn law_trim_gives_files_up(
    v: super::StoreView,
    victims: Seq<crate::rows::ClipView>,
    stems: Seq<Stems>,
    j: int,
    dir: Seq<char>,
    name: Seq<char>,
)
    requires
        are_all_stems(victims, stems),
        0 <= j < victims.len(),
        known_file(dir, name),
        victims[j].image_path == Some(dir + name) || victims[j].html_path == Some(dir + name),
        forall|k: int|
            0 <= k < v.clips.len() && super::blobs::clip_refers_to(dir + name)(
                #[trigger] v.clips[k],
            ) ==> victims.take(j + 1).contains(v.clips[k]),
        forall|k: int|
            0 <= k < v.todos.len() ==> !super::blobs::todo_refers_to(dir + name)(
                #[trigger] v.todos[k],
            ),
    ensures
        trim_files(v.clips, v.todos, victims, stems).contains(dir + name),
    decreases victims.len(),
{
    let f = dir + name;
    let now = kept(v.clips, victims);
    let before = trim_files(v.clips, v.todos, victims.drop_last(), stems.drop_last());
    let last = clip_files(now, v.todos, victims.last(), stems.last(), 0);
    if j == victims.len() - 1 {
        assert(victims.take(j + 1) =~= victims);
        crate::seqs::lemma_filter_elements(v.clips, not_among(victims));
        assert forall|k: int| 0 <= k < now.len() implies !super::blobs::clip_refers_to(f)(
            #[trigger] now[k],
        ) by {
            assert(now.contains(now[k]));
            let m = choose|m: int| 0 <= m < v.clips.len() && v.clips[m] == now[k];
            assert(not_among(victims)(now[k]));
            assert(v.clips[m] == now[k]);
        }
        lemma_no_references_left(now, v.todos, f);
        assert(are_stems_of(victims[j], stems[j]));
        lemma_given_up(now, v.todos, victims[j], stems[j], dir, name, 0);
        let m = choose|m: int| 0 <= m < last.len() && last[m] == f;
        assert((before + last)[before.len() + m] == f);
    } else {
        let init = victims.drop_last();
        assert(init.take(j + 1) =~= victims.take(j + 1));
        assert forall|i: int| 0 <= i < init.len() implies #[trigger] are_stems_of(
            init[i],
            stems.drop_last()[i],
        ) by {
            assert(are_stems_of(victims[i], stems[i]));
        }
        law_trim_gives_files_up(v, init, stems.drop_last(), j, dir, name);
        let m = choose|m: int| 0 <= m < before.len() && before[m] == f;
        assert((before + last)[m] == f);
    }
}

proof fn lemma_no_references_left(
    clips: Seq<crate::rows::ClipView>,
    todos: Seq<crate::rows::TodoView>,
    file: Seq<char>,
)
    requires
        forall|k: int|
            0 <= k < clips.len() ==> !super::blobs::clip_refers_to(file)(#[trigger] clips[k]),
        forall|k: int|
            0 <= k < todos.len() ==> !super::blobs::todo_refers_to(file)(#[trigger] todos[k]),
    ensures
        forall|s: Seq<char>| #[trigger]
            super::blobs::is_stem(file, Some(s)) ==> super::blobs::references(clips, todos, s) == 0,
{
    assert forall|s: Seq<char>| #[trigger]
        super::blobs::is_stem(file, Some(s)) implies super::blobs::references(clips, todos, s)
        == 0 by {
        assert forall|k: int| 0 <= k < clips.len() implies !super::blobs::clip_refers(s)(
            #[trigger] clips[k],
        ) by {
            assert(!super::blobs::clip_refers_to(file)(clips[k]));
        }
        assert forall|k: int| 0 <= k < todos.len() implies !super::blobs::todo_refers(s)(
            #[trigger] todos[k],
        ) by {
            assert(!super::blobs::todo_refers_to(file)(todos[k]));
        }
        crate::seqs::lemma_filter_none(clips, super::blobs::clip_refers(s));
        crate::seqs::lemma_filter_none(todos, super::blobs::todo_refers(s));
    }
}

/// Clearing gives up the file of a known path that no row refers to any more.
pub proof fn law_clear_gives_files_up(
    after: super::StoreView,
    victims: Seq<crate::rows::ClipView>,
    stems: Seq<Stems>,
    j: int,
    dir: Seq<char>,
    name: Seq<char>,
)
    requires
        are_all_stems(victims, stems),
        0 <= j < victims.len(),
        known_file(dir, name),
        victims[j].image_path == Some(dir + name) || victims[j].html_path == Some(dir + name),
        forall|k: int|
            0 <= k < after.clips.len() ==> !super::blobs::clip_refers_to(dir + name)(
                #[trigger] after.clips[k],
            ),
        forall|k: int|
            0 <= k < after.todos.len() ==> !super::blobs::todo_refers_to(dir + name)(
                #[trigger] after.todos[k],
            ),
    ensures
        clear_files(after.clips, after.todos, victims, stems).contains(dir + name),
    decreases victims.len(),
{
    let f = dir + name;
    let before = clear_files(after.clips, after.todos, victims.drop_last(), stems.drop_last());
    let last = clip_files(after.clips, after.todos, victims.last(), stems.last(), 0);
    if j == victims.len() - 1 {
        lemma_no_references_left(after.clips, after.todos, f);
        assert(are_stems_of(victims[j], stems[j]));
        lemma_given_up(after.clips, after.todos, victims[j], stems[j], dir, name, 0);
        let m = choose|m: int| 0 <= m < last.len() && last[m] == f;
        assert((before + last)[before.len() + m] == f);
    } else {
        let init = victims.drop_last();
        assert forall|i: int| 0 <= i < init.len() implies #[trigger] are_stems_of(
            init[i],
            stems.drop_last()[i],
        ) by {
            assert(are_stems_of(victims[i], stems[i]));
        }
        law_clear_gives_files_up(after, init, stems.drop_last(), j, dir, name);
        let m = choose|m: int| 0 <= m < before.len() && before[m] == f;
        assert((before + last)[m] == f);
    }
}

/// Deleting a todo gives up its image at a known path, where no other row refers to it.
pub proof fn law_last_todo_gives_image_up(
    v: super::StoreView,
    i: int,
    stem: Option<Seq<char>>,
    dir: Seq<char>,
    name: Seq<char>,
)
    requires
        0 <= i < v.todos.len(),
        known_file(dir, name),
        v.todos[i].image_path == Some(dir + name),
        is_stem_for(v.todos[i].image_path, stem),
        forall|k: int|
            0 <= k < v.clips.len() ==> !super::blobs::clip_refers_to(dir + name)(
                #[trigger] v.clips[k],
            ),
        forall|k: int|
            0 <= k < v.todos.len() && k != i ==> !super::blobs::todo_refers_to(dir + name)(
                #[trigger] v.todos[k],
            ),
    ensures
        todo_file(v.clips, v.todos, v.todos[i], stem) == Some(dir + name),
{
    let f = dir + name;
    let s = stem->0;
    assert(super::blobs::is_stem(f, Some(s)));
    assert forall|k: int| 0 <= k < v.clips.len() implies !super::blobs::clip_image_refers(s)(
        #[trigger] v.clips[k],
    ) by {
        assert(!super::blobs::clip_refers_to(f)(v.clips[k]));
        assert(!super::blobs::clip_refers(s)(v.clips[k]));
    }
    assert forall|k: int| 0 <= k < v.todos.len() && k != i implies !super::blobs::todo_refers(s)(
        #[trigger] v.todos[k],
    ) by {
        assert(!super::blobs::todo_refers_to(f)(v.todos[k]));
    }
    crate::seqs::lemma_filter_none(v.clips, super::blobs::clip_image_refers(s));
    crate::seqs::lemma_filter_at_most_one(v.todos, super::blobs::todo_refers(s), i);
}

} // verus!
