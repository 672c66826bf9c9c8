//! Laws of the clipboard history: what an event makes of it, and what the operations on single
//! clips change.

use crate::content::{build_clip, event_blobs, EventBlobs};
use crate::rows::{ClipEvent, ClipRow};
use crate::store::{Store, StoreError};
use vstd::prelude::*;
use vstd::utf8::*;

verus! {

/// Whether a text has a character other than white space.
pub open spec fn has_ink(t: Seq<char>) -> bool {
    exists|i: int| 0 <= i < t.len() && !crate::text::is_white(#[trigger] t[i])
}

/// A text is blank where it has nothing but white space.
pub proof fn lemma_ink(t: Seq<char>)
    ensures
        has_ink(t) == !crate::text::is_blank(t),
{
    crate::laws::texts::law_blank(t);
}

/// The document that came with an event.
pub open spec fn document_of(ev: ClipEvent) -> Option<Seq<char>> {
    match ev.html {
        Some(raw) => crate::cf_html::cf_html_document(raw@),
        None => None,
    }
}

/// The path of the file that an event's document goes to, named by the digest of the document.
pub open spec fn document_path(dir: Seq<char>, ev: ClipEvent) -> Option<Seq<char>> {
    match document_of(ev) {
        Some(doc) => Some(
            dir + crate::digest::hex_text(crate::digest::sha256_of(encode_utf8(doc))) + ".html"@,
        ),
        None => None,
    }
}

/// What a clip of a text is known by: the bytes of the text, with those of its document's file
/// behind them where the event has a document and the file could be read.
pub open spec fn text_identity(t: Seq<char>, ev: ClipEvent, on_disk: Option<Vec<u8>>) -> Seq<char> {
    crate::digest::hex_text(
        crate::digest::sha256_of(
            if document_of(ev) is Some && on_disk is Some {
                encode_utf8(t) + on_disk->0@
            } else {
                encode_utf8(t)
            },
        ),
    )
}

proof fn lemma_document_path(dir: Seq<char>, ev: ClipEvent)
    ensures
        document_path(dir, ev) == crate::content::html_path_of(dir, ev@),
        document_of(ev) == crate::content::document(ev@),
{
    if let Some(doc) = document_of(ev) {
        let name = crate::digest::hex_text(crate::digest::sha256_of(encode_utf8(doc)));
        assert(dir + name + ".html"@ =~= dir + (name + ".html"@));
    }
}

proof fn lemma_text_identity(t: Seq<char>, ev: ClipEvent, on_disk: Option<Vec<u8>>)
    requires
        crate::content::content(ev@) == Some(crate::content::ContentView::Text(t)),
    ensures
        text_identity(t, ev, on_disk) == crate::content::event_hash(
            ev@,
            crate::content::content(ev@)->0,
            crate::content::opt_bytes(on_disk),
        ),
{
    lemma_document_path(seq![], ev);
    assert(encode_utf8(t) + Seq::<u8>::empty() =~= encode_utf8(t));
}

/// The clip of an event with a text is that text, character for character, whatever else the
/// event has.
pub proof fn law_clip_of_text(
    dir: &str,
    ev: &ClipEvent,
    on_disk: &Option<Vec<u8>>,
    id: i64,
    res: Option<ClipRow>,
)
    requires
        call_ensures(build_clip, (dir, ev, on_disk, id), res),
        ev.text is Some,
        has_ink(ev.text->0@),
    ensures
        res is Some,
        res->0.text is Some,
        res->0.text->0@ == ev.text->0@,
        res->0.kind@ == "text"@,
        res->0.id == id,
        res->0.ts == ev.ts,
        res->0.image_path is None,
        res->0.files_json is None,
        crate::rows::opt_view(res->0.html_path) == document_path(dir@, *ev),
        res->0.hash@ == text_identity(ev.text->0@, *ev, *on_disk),
        res->0.size == encode_utf8(ev.text->0@).len() as i64,
        !res->0.pinned,
{
    let t = ev.text->0@;
    lemma_ink(t);
    lemma_document_path(dir@, *ev);
    lemma_text_identity(t, *ev, *on_disk);
    lemma_clip_fields(res->0);
}

proof fn lemma_clip_fields(row: ClipRow)
    ensures
        row@.text == crate::rows::opt_view(row.text),
        row@.image_path == crate::rows::opt_view(row.image_path),
        row@.files_json == crate::rows::opt_view(row.files_json),
        row@.html_path == crate::rows::opt_view(row.html_path),
        row@.kind == row.kind@,
        row@.hash == row.hash@,
{
}

/// The clip of an event with a bitmap and no text refers to a file that is named by the digest of
/// the bitmap.
pub proof fn law_clip_of_image(
    dir: &str,
    ev: &ClipEvent,
    on_disk: &Option<Vec<u8>>,
    id: i64,
    res: Option<ClipRow>,
)
    requires
        call_ensures(build_clip, (dir, ev, on_disk, id), res),
        ev.text is None,
        ev.dib is Some,
    ensures
        res is Some,
        res->0.text is None,
        res->0.kind@ == "image"@,
        res->0.id == id,
        res->0.ts == ev.ts,
        res->0.image_path is Some,
        res->0.image_path->0@ == dir@ + crate::digest::hex_text(
            crate::digest::sha256_of(ev.dib->0@),
        ) + ".dib"@,
        res->0.files_json is None,
        crate::rows::opt_view(res->0.html_path) == document_path(dir@, *ev),
        res->0.hash@ == crate::digest::hex_text(crate::digest::sha256_of(ev.dib->0@)),
        res->0.size == ev.dib->0@.len() as i64,
        !res->0.pinned,
{
    lemma_document_path(dir@, *ev);
    let name = crate::digest::hex_text(crate::digest::sha256_of(ev.dib->0@));
    assert(dir@ + name + ".dib"@ =~= dir@ + (name + ".dib"@));
    lemma_clip_fields(res->0);
}

/// The clip of an event with files alone has their paths as a JSON text.
pub proof fn law_clip_of_files(
    dir: &str,
    ev: &ClipEvent,
    on_disk: &Option<Vec<u8>>,
    id: i64,
    res: Option<ClipRow>,
)
    requires
        call_ensures(build_clip, (dir, ev, on_disk, id), res),
        ev.text is None,
        ev.dib is None,
        ev.files is Some,
    ensures
        res is Some,
        res->0.text is None,
        res->0.kind@ == "files"@,
        res->0.id == id,
        res->0.ts == ev.ts,
        res->0.image_path is None,
        res->0.files_json is Some,
        res->0.files_json->0@ == crate::json::json_array(crate::text::views(ev.files->0@)),
        crate::rows::opt_view(res->0.html_path) == document_path(dir@, *ev),
        res->0.hash@ == crate::digest::hex_text(
            crate::digest::sha256_of(encode_utf8(res->0.files_json->0@)),
        ),
        res->0.size == ev.files->0@.len() as i64,
        !res->0.pinned,
{
    lemma_document_path(dir@, *ev);
    lemma_clip_fields(res->0);
}

/// An event with a blank text makes no clip, nor does one with nothing in it.
pub proof fn law_no_clip(
    dir: &str,
    ev: &ClipEvent,
    on_disk: &Option<Vec<u8>>,
    id: i64,
    res: Option<ClipRow>,
)
    requires
        call_ensures(build_clip, (dir, ev, on_disk, id), res),
        (ev.text is Some && !has_ink(ev.text->0@)) || (ev.text is None && ev.dib is None
            && ev.files is None),
    ensures
        res is None,
{
    if ev.text is Some {
        lemma_ink(ev.text->0@);
    }
}

/// Whether no clip has the content address `hash`.
pub open spec fn is_unknown(clips: Seq<crate::rows::ClipView>, hash: Seq<char>) -> bool {
    forall|i: int| 0 <= i < clips.len() ==> (#[trigger] clips[i]).hash != hash
}

/// Whether a clip can still be added: the largest id is not in use.
pub open spec fn has_room(clips: Seq<crate::rows::ClipView>) -> bool {
    clips.len() == 0 || clips.last().id < i64::MAX
}

/// The id behind the largest one; the first is 1.
pub open spec fn next_id(clips: Seq<crate::rows::ClipView>) -> int {
    if clips.len() == 0 {
        1
    } else {
        clips.last().id + 1
    }
}

/// A text that the history does not know becomes its last row: the text itself, character for
/// character, with the id above all others. No other row changes, nor do todos or settings.
pub proof fn law_new_text_added(
    s: &mut Store,
    ev: &ClipEvent,
    on_disk: &Option<Vec<u8>>,
    res: Result<i64, StoreError>,
)
    requires
        old(s).wf(),
        call_ensures(Store::insert, (s, ev, on_disk), res),
        ev.text is Some,
        has_ink(ev.text->0@),
        is_unknown(old(s)@.clips, text_identity(ev.text->0@, *ev, *on_disk)),
        has_room(old(s)@.clips),
    ensures
        res is Ok,
        final(s)@.clips.len() == old(s)@.clips.len() + 1,
        final(s)@.clips.drop_last() == old(s)@.clips,
        ({
            let c = final(s)@.clips.last();
            &&& c.text == Some(ev.text->0@)
            &&& c.kind == "text"@
            &&& c.image_path is None
            &&& c.files_json is None
            &&& c.html_path == document_path(old(s)@.blob_dir, *ev)
            &&& c.hash == text_identity(ev.text->0@, *ev, *on_disk)
            &&& c.size == encode_utf8(ev.text->0@).len() as i64
            &&& !c.pinned
            &&& c.ts == ev.ts
            &&& res == Ok::<i64, StoreError>(c.id)
            &&& c.id == next_id(old(s)@.clips)
            &&& forall|i: int| 0 <= i < old(s)@.clips.len() ==> (#[trigger] old(s)@.clips[i]).id < c.id
        }),
        final(s)@.todos == old(s)@.todos,
        final(s)@.settings == old(s)@.settings,
        final(s)@.blob_dir == old(s)@.blob_dir,
{
    old(s).lemma_valid();
    let t = ev.text->0@;
    lemma_ink(t);
    lemma_document_path(old(s)@.blob_dir, *ev);
    lemma_text_identity(t, *ev, *on_disk);
    lemma_added(old(s)@, ev@, crate::content::opt_bytes(*on_disk));
}

proof fn lemma_added(
    v: crate::store::StoreView,
    ev: crate::rows::EventView,
    on_disk: Option<Seq<u8>>,
)
    requires
        v.valid(),
        crate::content::content(ev) is Some,
        is_unknown(v.clips, crate::content::event_hash(ev, crate::content::content(ev)->0, on_disk)),
        has_room(v.clips),
    ensures
        ({
            let res = crate::store::clips::inserted(v, ev, on_disk);
            let c = crate::content::content(ev)->0;
            &&& res is Ok
            &&& res->Ok_0.0 == v.clips.push(
                crate::content::new_clip(v.blob_dir, ev, c, on_disk, res->Ok_0.1),
            )
            &&& res->Ok_0.0.drop_last() == v.clips
            &&& forall|i: int| 0 <= i < v.clips.len() ==> (#[trigger] v.clips[i]).id < res->Ok_0.1
        }),
{
    let res = crate::store::clips::inserted(v, ev, on_disk);
    let c = crate::content::content(ev)->0;
    crate::store::clips::lemma_hash_index(v.clips, crate::content::event_hash(ev, c, on_disk));
    assert(res is Ok);
    assert(res->Ok_0.0.drop_last() =~= v.clips);
    assert forall|i: int| 0 <= i < v.clips.len() implies (#[trigger] v.clips[i]).id
        < res->Ok_0.1 by {
        let k = v.clips.len() - 1;
        if i < k {
            assert(v.clips[i].id < v.clips[k].id);
        }
        assert(v.clips[k].id < res->Ok_0.1);
    }
}

/// A bitmap that the history does not know becomes its last row, which refers to a file named by
/// the digest of the bitmap.
pub proof fn law_new_image_added(
    s: &mut Store,
    ev: &ClipEvent,
    on_disk: &Option<Vec<u8>>,
    res: Result<i64, StoreError>,
)
    requires
        old(s).wf(),
        call_ensures(Store::insert, (s, ev, on_disk), res),
        ev.text is None,
        ev.dib is Some,
        is_unknown(
            old(s)@.clips,
            crate::digest::hex_text(crate::digest::sha256_of(ev.dib->0@)),
        ),
        has_room(old(s)@.clips),
    ensures
        res is Ok,
        final(s)@.clips.len() == old(s)@.clips.len() + 1,
        final(s)@.clips.drop_last() == old(s)@.clips,
        ({
            let c = final(s)@.clips.last();
            let name = crate::digest::hex_text(crate::digest::sha256_of(ev.dib->0@));
            &&& c.text is None
            &&& c.kind == "image"@
            &&& c.image_path == Some(old(s)@.blob_dir + name + ".dib"@)
            &&& c.files_json is None
            &&& c.html_path == document_path(old(s)@.blob_dir, *ev)
            &&& c.hash == name
            &&& c.size == ev.dib->0@.len() as i64
            &&& !c.pinned
            &&& c.ts == ev.ts
            &&& res == Ok::<i64, StoreError>(c.id)
            &&& c.id == next_id(old(s)@.clips)
            &&& forall|i: int| 0 <= i < old(s)@.clips.len() ==> (#[trigger] old(s)@.clips[i]).id < c.id
        }),
        final(s)@.todos == old(s)@.todos,
        final(s)@.settings == old(s)@.settings,
        final(s)@.blob_dir == old(s)@.blob_dir,
{
    old(s).lemma_valid();
    let dir = old(s)@.blob_dir;
    lemma_document_path(dir, *ev);
    let name = crate::digest::hex_text(crate::digest::sha256_of(ev.dib->0@));
    assert(dir + name + ".dib"@ =~= dir + (name + ".dib"@));
    lemma_added(old(s)@, ev@, crate::content::opt_bytes(*on_disk));
}

/// A list of files that the history does not know becomes its last row.
pub proof fn law_new_files_added(
    s: &mut Store,
    ev: &ClipEvent,
    on_disk: &Option<Vec<u8>>,
    res: Result<i64, StoreError>,
)
    requires
        old(s).wf(),
        call_ensures(Store::insert, (s, ev, on_disk), res),
        ev.text is None,
        ev.dib is None,
        ev.files is Some,
        is_unknown(
            old(s)@.clips,
            crate::digest::hex_text(
                crate::digest::sha256_of(
                    encode_utf8(crate::json::json_array(crate::text::views(ev.files->0@))),
                ),
            ),
        ),
        has_room(old(s)@.clips),
    ensures
        res is Ok,
        final(s)@.clips.len() == old(s)@.clips.len() + 1,
        final(s)@.clips.drop_last() == old(s)@.clips,
        ({
            let c = final(s)@.clips.last();
            let json = crate::json::json_array(crate::text::views(ev.files->0@));
            &&& c.text is None
            &&& c.kind == "files"@
            &&& c.image_path is None
            &&& c.files_json == Some(json)
            &&& c.html_path == document_path(old(s)@.blob_dir, *ev)
            &&& c.hash == crate::digest::hex_text(crate::digest::sha256_of(encode_utf8(json)))
            &&& c.size == ev.files->0@.len() as i64
            &&& !c.pinned
            &&& c.ts == ev.ts
            &&& res == Ok::<i64, StoreError>(c.id)
            &&& c.id == next_id(old(s)@.clips)
            &&& forall|i: int| 0 <= i < old(s)@.clips.len() ==> (#[trigger] old(s)@.clips[i]).id < c.id
        }),
        final(s)@.todos == old(s)@.todos,
        final(s)@.settings == old(s)@.settings,
        final(s)@.blob_dir == old(s)@.blob_dir,
{
    old(s).lemma_valid();
    lemma_document_path(old(s)@.blob_dir, *ev);
    lemma_added(old(s)@, ev@, crate::content::opt_bytes(*on_disk));
}

/// What an event's content is known by: a text by its bytes and those of its document's file, a
/// bitmap by its bytes, files by the bytes of their JSON text. An event without content has none.
pub open spec fn identity(ev: ClipEvent, on_disk: Option<Vec<u8>>) -> Option<Seq<char>> {
    if let Some(t) = ev.text {
        if has_ink(t@) {
            Some(text_identity(t@, ev, on_disk))
        } else {
            None
        }
    } else if let Some(d) = ev.dib {
        Some(crate::digest::hex_text(crate::digest::sha256_of(d@)))
    } else if let Some(f) = ev.files {
        Some(
            crate::digest::hex_text(
                crate::digest::sha256_of(
                    encode_utf8(crate::json::json_array(crate::text::views(f@))),
                ),
            ),
        )
    } else {
        None
    }
}

proof fn lemma_identity(ev: ClipEvent, on_disk: Option<Vec<u8>>)
    ensures
        match (identity(ev, on_disk), crate::content::content(ev@)) {
            (Some(h), Some(c)) => h == crate::content::event_hash(
                ev@,
                c,
                crate::content::opt_bytes(on_disk),
            ),
            (None, None) => true,
            _ => false,
        },
{
    if let Some(t) = ev.text {
        lemma_ink(t@);
        if has_ink(t@) {
            lemma_text_identity(t@, ev, on_disk);
        }
    }
}

/// Content that the history knows moves the clip that has it to the time of the event, and
/// changes nothing else.
pub proof fn law_known_content_moves_up(
    s: &mut Store,
    ev: &ClipEvent,
    on_disk: &Option<Vec<u8>>,
    res: Result<i64, StoreError>,
    k: int,
)
    requires
        old(s).wf(),
        call_ensures(Store::insert, (s, ev, on_disk), res),
        0 <= k < old(s)@.clips.len(),
        identity(*ev, *on_disk) == Some(old(s)@.clips[k].hash),
    ensures
        res == Ok::<i64, StoreError>(old(s)@.clips[k].id),
        only_clip_changed(old(s)@, final(s)@, k),
        final(s)@.clips[k] == (crate::rows::ClipView { ts: ev.ts, ..old(s)@.clips[k] }),
{
    old(s).lemma_valid();
    lemma_identity(*ev, *on_disk);
    crate::store::laws::law_known_content(
        old(s)@,
        ev@,
        crate::content::opt_bytes(*on_disk),
        k,
    );
}

/// Whether everything but clip `k` is as it was.
pub open spec fn only_clip_changed(
    a: crate::store::StoreView,
    b: crate::store::StoreView,
    k: int,
) -> bool {
    &&& b.clips.len() == a.clips.len()
    &&& forall|i: int| 0 <= i < a.clips.len() && i != k ==> #[trigger] b.clips[i] == a.clips[i]
    &&& b.todos == a.todos
    &&& b.settings == a.settings
    &&& b.blob_dir == a.blob_dir
}

/// An event without content changes nothing, and a new clip that finds no id is refused without
/// a change.
pub proof fn law_insert_without_effect(
    s: &mut Store,
    ev: &ClipEvent,
    on_disk: &Option<Vec<u8>>,
    res: Result<i64, StoreError>,
)
    requires
        old(s).wf(),
        call_ensures(Store::insert, (s, ev, on_disk), res),
    ensures
        identity(*ev, *on_disk) is None ==> res == Ok::<i64, StoreError>(0) && final(s)@
            == old(s)@,
        (identity(*ev, *on_disk) matches Some(h) && is_unknown(old(s)@.clips, h)) && !has_room(
            old(s)@.clips,
        ) ==> res == Err::<i64, StoreError>(StoreError::Full) && final(s)@ == old(s)@,
{
    old(s).lemma_valid();
    lemma_identity(*ev, *on_disk);
    if let Some(h) = identity(*ev, *on_disk) {
        crate::store::clips::lemma_hash_index(old(s)@.clips, h);
    }
}

/// Touching a clip sets its time and nothing else.
pub proof fn law_touch(s: &mut Store, id: i64, ts: i64, k: int)
    requires
        old(s).wf(),
        call_ensures(Store::touch_at, (s, id, ts), ()),
        0 <= k < old(s)@.clips.len(),
        old(s)@.clips[k].id == id,
    ensures
        only_clip_changed(old(s)@, final(s)@, k),
        final(s)@.clips[k] == (crate::rows::ClipView { ts, ..old(s)@.clips[k] }),
{
    old(s).lemma_valid();
    lemma_ids_apart(old(s)@.clips, k);
}

/// Touching a clip now sets its time to the current one and nothing else.
pub proof fn law_touch_now(s: &mut Store, id: i64, k: int)
    requires
        old(s).wf(),
        call_ensures(Store::touch, (s, id), ()),
        0 <= k < old(s)@.clips.len(),
        old(s)@.clips[k].id == id,
    ensures
        only_clip_changed(old(s)@, final(s)@, k),
        crate::clock::is_now(final(s)@.clips[k].ts),
        final(s)@.clips[k] == (crate::rows::ClipView {
            ts: final(s)@.clips[k].ts,
            ..old(s)@.clips[k]
        }),
{
    old(s).lemma_valid();
    lemma_ids_apart(old(s)@.clips, k);
}

/// No two clips have the same id.
pub proof fn lemma_ids_apart(clips: Seq<crate::rows::ClipView>, k: int)
    requires
        crate::rows::clip_ids_rise(clips),
        0 <= k < clips.len(),
    ensures
        forall|i: int| 0 <= i < clips.len() && i != k ==> (#[trigger] clips[i]).id != clips[k].id,
{
    assert forall|i: int| 0 <= i < clips.len() && i != k implies (#[trigger] clips[i]).id
        != clips[k].id by {
        if i < k {
            assert(clips[i].id < clips[k].id);
        } else {
            assert(clips[k].id < clips[i].id);
        }
    }
}

/// Touching or pinning a clip that is not there changes nothing.
pub proof fn law_absent_clip_untouched(
    s: &mut Store,
    t: &mut Store,
    id: i64,
    ts: i64,
    res: Result<bool, StoreError>,
)
    requires
        old(s).wf(),
        old(t).wf(),
        call_ensures(Store::touch_at, (s, id, ts), ()),
        call_ensures(Store::clip_toggle_pin, (t, id), res),
        forall|i: int| 0 <= i < old(s)@.clips.len() ==> (#[trigger] old(s)@.clips[i]).id != id,
        forall|i: int| 0 <= i < old(t)@.clips.len() ==> (#[trigger] old(t)@.clips[i]).id != id,
    ensures
        final(s)@ == old(s)@,
        final(t)@ == old(t)@,
        res == Err::<bool, StoreError>(StoreError::NoRow),
{
    assert(final(s)@.clips =~= old(s)@.clips);
    assert(final(t)@.clips =~= old(t)@.clips);
}

/// Flipping the pin of a clip changes its pin, which is also the answer, and nothing else.
pub proof fn law_pin(s: &mut Store, id: i64, res: Result<bool, StoreError>, k: int)
    requires
        old(s).wf(),
        call_ensures(Store::clip_toggle_pin, (s, id), res),
        0 <= k < old(s)@.clips.len(),
        old(s)@.clips[k].id == id,
    ensures
        only_clip_changed(old(s)@, final(s)@, k),
        res == Ok::<bool, StoreError>(!old(s)@.clips[k].pinned),
        final(s)@.clips[k] == (crate::rows::ClipView {
            pinned: !old(s)@.clips[k].pinned,
            ..old(s)@.clips[k]
        }),
{
    old(s).lemma_valid();
    lemma_ids_apart(old(s)@.clips, k);
    lemma_clip_found(old(s)@.clips, k);
}

/// A clip is found by its id.
pub proof fn lemma_clip_found(clips: Seq<crate::rows::ClipView>, k: int)
    requires
        crate::rows::clip_ids_rise(clips),
        0 <= k < clips.len(),
    ensures
        crate::store::clips::clip_at(clips, clips[k].id) == Some(clips[k]),
{
    lemma_ids_apart(clips, k);
    let id = clips[k].id;
    let j = choose|j: int| 0 <= j < clips.len() && (#[trigger] clips[j]).id == id;
    assert(j == k);
}

/// A clip that is asked for by its id is the row that has the id; where none has it, there is
/// none. All rows are counted.
pub proof fn law_get(s: &Store, id: i64, res: Option<ClipRow>, n: usize)
    requires
        s.wf(),
        call_ensures(Store::get, (s, id), res),
        call_ensures(Store::count, (s,), n),
    ensures
        res is None <==> forall|i: int|
            0 <= i < s@.clips.len() ==> (#[trigger] s@.clips[i]).id != id,
        res is Some ==> s@.clips.contains(res->0@) && res->0.id == id,
        n == s@.clips.len(),
{
    if exists|i: int| 0 <= i < s@.clips.len() && (#[trigger] s@.clips[i]).id == id {
        let i = choose|i: int| 0 <= i < s@.clips.len() && (#[trigger] s@.clips[i]).id == id;
        s.lemma_valid();
        lemma_clip_found(s@.clips, i);
        assert(res->0@.id == res->0.id);
    }
}

/// The files of an event are those that its clip refers to: a document's is named by the digest
/// of the document and holds it, a bitmap's by that of the bitmap, and a picture for display
/// stands beside it.
pub proof fn law_event_files(dir: &str, ev: &ClipEvent, res: EventBlobs)
    requires
        call_ensures(event_blobs, (dir, ev), res),
    ensures
        res.html is Some <==> document_of(*ev) is Some,
        res.html is Some ==> {
            let b = res.html->0;
            &&& Some(b.body@) == document_of(*ev)
            &&& Some(b.path@) == document_path(dir@, *ev)
            &&& b.path@ == dir@ + b.name@
        },
        res.image is Some <==> ev.text is None && ev.dib is Some,
        res.image is Some ==> {
            let b = res.image->0;
            let name = crate::digest::hex_text(crate::digest::sha256_of(ev.dib->0@));
            &&& b.dib_name@ == name + ".dib"@
            &&& b.png_name@ == name + ".png"@
            &&& b.dib_path@ == dir@ + b.dib_name@
        },
{
    lemma_document_path(dir@, *ev);
}

/// The same of a store, in whose directory the files go.
pub proof fn law_store_event_files(
    store: &Store,
    dir: &str,
    ev: &ClipEvent,
    res: EventBlobs,
    same: EventBlobs,
)
    requires
        call_ensures(Store::blob_dir, (store,), dir),
        call_ensures(Store::event_blobs, (store, ev), res),
        call_ensures(event_blobs, (dir, ev), same),
    ensures
        dir@ == store@.blob_dir,
        res.html is Some <==> same.html is Some,
        res.html is Some ==> {
            &&& res.html->0.name@ == same.html->0.name@
            &&& res.html->0.path@ == same.html->0.path@
            &&& res.html->0.body@ == same.html->0.body@
        },
        res.image is Some <==> same.image is Some,
        res.image is Some ==> {
            &&& res.image->0.dib_name@ == same.image->0.dib_name@
            &&& res.image->0.dib_path@ == same.image->0.dib_path@
            &&& res.image->0.png_name@ == same.image->0.png_name@
        },
{
}

} // verus!
