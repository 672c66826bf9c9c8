//! Blob files, and who refers to them.
//!
//! A row refers to a file where one of its paths holds the stem of the file's name.

use super::Store;
use crate::like::sql_like_chars;
use crate::text::chars_of;
use vstd::prelude::*;

verus! {

/// The stem of a file name: what precedes its last dot, unless that is the name's first
/// character.
pub open spec fn stem_of_name(name: Seq<char>) -> Seq<char> {
    if exists|i: int| 0 < i < name.len() && #[trigger] name[i] == '.' {
        let i = choose|i: int|
            0 < i < name.len() && #[trigger] name[i] == '.' && forall|k: int|
                i < k < name.len() ==> #[trigger] name[k] != '.';
        name.take(i)
    } else {
        name
    }
}

/// Whether a name is a file name on every platform: it is not empty, has no separator and no colon,
/// and is none of the two names of directories.
pub open spec fn plain_name(name: Seq<char>) -> bool {
    &&& name.len() > 0
    &&& !name.contains('/')
    &&& !name.contains('\\')
    &&& !name.contains(':')
    &&& name != seq!['.']
    &&& name != seq!['.', '.']
}

pub open spec fn is_separator(c: char) -> bool {
    c == '/' || c == '\\'
}

/// Whether a path begins with two separators, as paths to other machines and devices do.
pub open spec fn begins_with_two(dir: Seq<char>) -> bool {
    dir.len() >= 2 && is_separator(dir[0]) && is_separator(dir[1])
}

/// Whether a path has a component from `i` to the separator at `j`.
pub open spec fn component_at(dir: Seq<char>, i: int, j: int) -> bool {
    &&& 0 <= i < j < dir.len()
    &&& is_separator(dir[j])
    &&& forall|k: int| i <= k < j ==> !is_separator(#[trigger] dir[k])
}

/// Whether a path has a component from `i` to the backslash at `j`, in which slashes are ordinary
/// characters.
pub open spec fn verbatim_at(dir: Seq<char>, i: int, j: int) -> bool {
    &&& 0 <= i < j < dir.len()
    &&& dir[j] == '\\'
    &&& forall|k: int| i <= k < j ==> #[trigger] dir[k] != '\\'
}

/// Whether a path leads to a directory on another machine, as `\\server\share\` does, or on a
/// device, as `\\.\device\` does: behind two separators stand two components, of which the first is
/// not the question mark alone.
pub open spec fn network_dir(dir: Seq<char>) -> bool {
    &&& begins_with_two(dir)
    &&& exists|i: int, j: int| #[trigger]
        component_at(dir, 2, i) && #[trigger] component_at(dir, i + 1, j)
    &&& !(dir[2] == '?' && is_separator(dir[3]))
}

/// Whether a path leads to a directory in verbatim form, as `\\?\C:\` does, or in the verbatim form
/// of a directory on another machine, `\\?\UNC\server\share\`.
pub open spec fn verbatim_dir(dir: Seq<char>) -> bool {
    &&& dir.len() > 4
    &&& dir.take(4) == seq!['\\', '\\', '?', '\\']
    &&& exists|i: int| #[trigger]
        verbatim_at(dir, 4, i) && (dir.subrange(4, i) == seq!['U', 'N', 'C'] ==> exists|
            j: int,
            k: int,
        | #[trigger]
            verbatim_at(dir, i + 1, j) && #[trigger] verbatim_at(dir, j + 1, k))
}

/// Whether a name that follows `dir` is a component of its own on every platform: `dir` is empty,
/// or it ends in a slash and, where it begins with two separators, leads to another machine or a
/// device.
pub open spec fn plain_dir(dir: Seq<char>) -> bool {
    dir.len() == 0 || dir.last() == '/' && (begins_with_two(dir) ==> network_dir(dir))
}

/// Whether a name that follows `dir` is a component of its own where the backslash separates:
/// `dir` ends in a backslash and, where it begins with two separators, leads to another machine or
/// a device, or has the verbatim form.
pub open spec fn backslash_dir(dir: Seq<char>) -> bool {
    dir.len() > 0 && dir.last() == '\\' && (begins_with_two(dir) ==> network_dir(dir)
        || verbatim_dir(dir))
}

/// What follows the last slash of a path; all of it where it has none.
pub open spec fn after_slash(path: Seq<char>) -> Seq<char>
    decreases path.len(),
{
    if path.len() == 0 || path.last() == '/' {
        seq![]
    } else {
        after_slash(path.drop_last()).push(path.last())
    }
}

/// Whether `stem` can be the stem of the file that `path` leads to: the stem of a name that is
/// part of the path, or none where the path has no file name. In a plain directory a plain name
/// is the file's name. Behind a backslash it is so where the backslash separates; elsewhere the
/// file's name is what follows the last slash.
pub open spec fn is_stem(path: Seq<char>, stem: Option<Seq<char>>) -> bool {
    &&& stem is Some ==> exists|i: int, j: int|
        0 <= i < j <= path.len() && stem == Some(stem_of_name(#[trigger] path.subrange(i, j)))
    &&& forall|dir: Seq<char>, name: Seq<char>|
        path == #[trigger] (dir + name) && plain_dir(dir) && plain_name(name) ==> stem == Some(
            stem_of_name(name),
        )
    &&& forall|dir: Seq<char>, name: Seq<char>|
        path == #[trigger] (dir + name) && backslash_dir(dir) && plain_name(name) ==> stem == Some(
            stem_of_name(name),
        ) || stem == Some(stem_of_name(after_slash(path)))
}

/// `std::path::Path::file_stem` gives the stem of the last component of a path, where that is a
/// file name. Which part of the path is the last component is up to the platform: a slash separates
/// on all of them but in verbatim paths, and a backslash on some. That is stated of plain names; of
/// other paths, and of paths that consist of a prefix such as a server and a share alone, it is
/// left open which part of them the name is.
#[verifier::external_body]
fn file_stem(path: &str) -> (res: Option<String>)
    ensures
        is_stem(path@, crate::rows::opt_view(res)),
{
    std::path::Path::new(path).file_stem().map(|s| s.to_string_lossy().into_owned())
}

/// Whether `stem` is what the platform gave for the stem of the file that `path` leads to.
pub closed spec fn is_given_stem(path: Seq<char>, stem: Option<Seq<char>>) -> bool {
    exists|p: &str, res: Option<String>| #[trigger]
        call_ensures(file_stem, (p,), res) && p@ == path && crate::rows::opt_view(res) == stem
}

/// The stem of the file that a path leads to.
pub(super) fn stem_of(path: &str) -> (res: Option<String>)
    ensures
        is_stem(path@, crate::rows::opt_view(res)),
        is_given_stem(path@, crate::rows::opt_view(res)),
{
    let res = file_stem(path);
    assert(call_ensures(file_stem, (path,), res));
    res
}

proof fn lemma_stem_occurs(path: Seq<char>, stem: Seq<char>)
    requires
        is_stem(path, Some(stem)),
    ensures
        exists|i: int| crate::text::occurs_at(path, stem, i),
{
    let (i, j) = choose|i: int, j: int|
        0 <= i < j <= path.len() && Some(stem) == Some(
            stem_of_name(#[trigger] path.subrange(i, j)),
        );
    let name = path.subrange(i, j);
    if exists|k: int| 0 < k < name.len() && #[trigger] name[k] == '.' {
        lemma_last_dot(name, name.len() - 1);
        let k = choose|k: int|
            0 < k < name.len() && #[trigger] name[k] == '.' && forall|m: int|
                k < m < name.len() ==> #[trigger] name[m] != '.';
        assert(path.subrange(i, i + k) =~= name.take(k));
        assert(crate::text::occurs_at(path, stem, i));
    } else {
        assert(crate::text::occurs_at(path, stem, i));
    }
}

proof fn lemma_last_dot(name: Seq<char>, n: int)
    requires
        0 <= n < name.len(),
        exists|k: int| 0 < k < name.len() && #[trigger] name[k] == '.',
        forall|m: int| n < m < name.len() ==> #[trigger] name[m] != '.',
    ensures
        exists|k: int|
            0 < k < name.len() && #[trigger] name[k] == '.' && forall|m: int|
                k < m < name.len() ==> #[trigger] name[m] != '.',
    decreases n,
{
    if name[n] != '.' {
        lemma_last_dot(name, n - 1);
    } else if n == 0 {
        let k = choose|k: int| 0 < k < name.len() && #[trigger] name[k] == '.';
        assert(name[k] != '.');
    }
}

/// The pattern for paths that hold `stem`.
pub open spec fn stem_pattern(stem: Seq<char>) -> Seq<char> {
    seq!['%'] + stem + seq!['%']
}

/// Whether a path refers to the file with the given stem.
pub open spec fn refers(path: Option<Seq<char>>, stem: Seq<char>) -> bool {
    path is Some && crate::like::sql_like(stem_pattern(stem), path->0, None)
}

pub open spec fn clip_refers(stem: Seq<char>) -> spec_fn(crate::rows::ClipView) -> bool {
    |c: crate::rows::ClipView| refers(c.image_path, stem) || refers(c.html_path, stem)
}

pub open spec fn clip_image_refers(stem: Seq<char>) -> spec_fn(crate::rows::ClipView) -> bool {
    |c: crate::rows::ClipView| refers(c.image_path, stem)
}

pub open spec fn todo_refers(stem: Seq<char>) -> spec_fn(crate::rows::TodoView) -> bool {
    |t: crate::rows::TodoView| refers(t.image_path, stem)
}

/// The clips that refer to a file by some stem that the file can have.
pub open spec fn clip_refers_to(file: Seq<char>) -> spec_fn(crate::rows::ClipView) -> bool {
    |c: crate::rows::ClipView|
        exists|s: Seq<char>| #[trigger] is_stem(file, Some(s)) && clip_refers(s)(c)
}

/// The todos that refer to a file by some stem that the file can have.
pub open spec fn todo_refers_to(file: Seq<char>) -> spec_fn(crate::rows::TodoView) -> bool {
    |t: crate::rows::TodoView|
        exists|s: Seq<char>| #[trigger] is_stem(file, Some(s)) && todo_refers(s)(t)
}

/// How many rows refer to the file with the given stem.
pub open spec fn references(
    clips: Seq<crate::rows::ClipView>,
    todos: Seq<crate::rows::TodoView>,
    stem: Seq<char>,
) -> nat {
    clips.filter(clip_refers(stem)).len() + todos.filter(todo_refers(stem)).len()
}

/// How many rows refer to the image with the given stem.
pub open spec fn image_references(
    clips: Seq<crate::rows::ClipView>,
    todos: Seq<crate::rows::TodoView>,
    stem: Seq<char>,
) -> nat {
    clips.filter(clip_image_refers(stem)).len() + todos.filter(todo_refers(stem)).len()
}

/// A path refers to itself by its own stem.
pub proof fn lemma_refers_to_itself(path: Seq<char>, stem: Seq<char>)
    requires
        is_stem(path, Some(stem)),
        !path.contains('\0'),
    ensures
        refers(Some(path), stem),
{
    lemma_stem_occurs(path, stem);
    let i = choose|i: int| crate::text::occurs_at(path, stem, i);
    crate::like::lemma_c_str_whole(path);
    let p = stem_pattern(stem);
    assert(!p.contains('\0')) by {
        if p.contains('\0') {
            let k = choose|k: int| 0 <= k < p.len() && p[k] == '\0';
            if 0 < k < p.len() - 1 {
                assert(stem[k - 1] == '\0');
                assert(path.subrange(i, i + stem.len())[k - 1] == path[i + k - 1]);
                assert(path.contains('\0'));
            }
        }
    }
    crate::like::lemma_c_str_whole(p);
    crate::like::lemma_part_matches(stem, path, i);
}

fn stem_pattern_of(stem: &str) -> (out: Vec<char>)
    ensures
        out@ == stem_pattern(stem@),
{
    let mut out: Vec<char> = Vec::new();
    out.push('%');
    let mut s = chars_of(stem);
    out.append(&mut s);
    out.push('%');
    assert(out@ =~= stem_pattern(stem@));
    out
}

fn path_refers(path: &Option<String>, pattern: &Vec<char>, Ghost(stem): Ghost<Seq<char>>) -> (res: bool)
    requires
        pattern@ == stem_pattern(stem),
    ensures
        res == refers(crate::rows::opt_view(*path), stem),
{
    match path {
        Some(p) => sql_like_chars(pattern, &chars_of(p.as_str()), None),
        None => false,
    }
}

impl Store {
    fn count_clip_references(&self, stem: &str, with_html: bool) -> (res: usize)
        ensures
            res == self@.clips.filter(
                if with_html {
                    clip_refers(stem@)
                } else {
                    clip_image_refers(stem@)
                },
            ).len(),
    {
        let pattern = stem_pattern_of(stem);
        let ghost p = if with_html {
            clip_refers(stem@)
        } else {
            clip_image_refers(stem@)
        };
        let ghost clips = self@.clips;
        let mut n: usize = 0;
        assert(clips.take(0).filter(p).len() == 0) by {
            reveal(Seq::filter);
        }
        for i in 0..self.clips.len()
            invariant
                clips == self@.clips,
                pattern@ == stem_pattern(stem@),
                p == (if with_html {
                    clip_refers(stem@)
                } else {
                    clip_image_refers(stem@)
                }),
                n <= i,
                n == clips.take(i as int).filter(p).len(),
        {
            let row = &self.clips[i];
            proof {
                reveal(Seq::filter);
                assert(clips.take(i + 1).drop_last() =~= clips.take(i as int));
                assert(clips.take(i + 1).last() == row@);
            }
            if path_refers(&row.image_path, &pattern, Ghost(stem@)) || (with_html && path_refers(
                &row.html_path,
                &pattern,
                Ghost(stem@),
            )) {
                n += 1;
            }
        }
        assert(clips.take(clips.len() as int) =~= clips);
        n
    }

    fn count_todo_references(&self, stem: &str) -> (res: usize)
        ensures
            res == self@.todos.filter(todo_refers(stem@)).len(),
    {
        let pattern = stem_pattern_of(stem);
        let ghost p = todo_refers(stem@);
        let ghost todos = self@.todos;
        let mut n: usize = 0;
        assert(todos.take(0).filter(p).len() == 0) by {
            reveal(Seq::filter);
        }
        for i in 0..self.todos.len()
            invariant
                todos == self@.todos,
                pattern@ == stem_pattern(stem@),
                p == todo_refers(stem@),
                n <= i,
                n == todos.take(i as int).filter(p).len(),
        {
            let row = &self.todos[i];
            proof {
                reveal(Seq::filter);
                assert(todos.take(i + 1).drop_last() =~= todos.take(i as int));
                assert(todos.take(i + 1).last() == row@);
            }
            if path_refers(&row.image_path, &pattern, Ghost(stem@)) {
                n += 1;
            }
        }
        assert(todos.take(todos.len() as int) =~= todos);
        n
    }

    /// How many rows refer to the file with the given stem.
    pub fn references(&self, stem: &str) -> (res: u128)
        ensures
            res == references(self@.clips, self@.todos, stem@),
    {
        self.count_clip_references(stem, true) as u128 + self.count_todo_references(stem) as u128
    }

    /// How many rows refer to the image with the given stem.
    pub fn image_references(&self, stem: &str) -> (res: u128)
        ensures
            res == image_references(self@.clips, self@.todos, stem@),
    {
        self.count_clip_references(stem, false) as u128 + self.count_todo_references(stem) as u128
    }
}

/// The names of blob files are plain, and their stems are the content addresses of what they hold.
pub proof fn law_blob_names(data: Seq<u8>, extension: Seq<char>)
    requires
        extension == ".dib"@ || extension == ".html"@,
        crate::digest::address_of(data).len() > 0,
    ensures
        plain_name(crate::content::blob_name(data, extension)),
        stem_of_name(crate::content::blob_name(data, extension)) == crate::digest::address_of(data),
{
    reveal_strlit(".dib");
    reveal_strlit(".html");
    let a = crate::digest::address_of(data);
    let name = crate::content::blob_name(data, extension);
    crate::digest::lemma_hex_chars(crate::digest::sha256_of(data));
    assert forall|i: int| 0 <= i < name.len() implies #[trigger] name[i] != '/' && name[i] != '\\'
        && name[i] != ':' by {
        if i < a.len() {
            assert(name[i] == a[i]);
        } else {
            assert(name[i] == extension[i - a.len()]);
        }
    }
    let n = a.len() as int;
    assert(name[n] == '.');
    assert forall|k: int| n < k < name.len() implies #[trigger] name[k] != '.' by {
        assert(name[k] == extension[k - n]);
    }
    lemma_stem_at(name, n);
    assert(name.take(n) =~= a);
}

/// The stem of a name in front of whose last dot stands something is found by that dot.
pub proof fn lemma_stem_at(name: Seq<char>, n: int)
    requires
        0 < n < name.len(),
        name[n] == '.',
        forall|k: int| n < k < name.len() ==> #[trigger] name[k] != '.',
    ensures
        stem_of_name(name) == name.take(n),
{
    let i = choose|i: int|
        0 < i < name.len() && #[trigger] name[i] == '.' && forall|k: int|
            i < k < name.len() ==> #[trigger] name[k] != '.';
    if i < n {
        assert(name[n] != '.');
    }
    if n < i {
        assert(name[i] != '.');
    }
}

proof fn lemma_after_slash(dir: Seq<char>, name: Seq<char>)
    requires
        !name.contains('/'),
    ensures
        after_slash(dir + name) == after_slash(dir) + name,
    decreases name.len(),
{
    if name.len() == 0 {
        assert(dir + name =~= dir);
        assert(after_slash(dir) + name =~= after_slash(dir));
    } else {
        let init = name.drop_last();
        assert(name.contains(name.last()));
        assert(!init.contains('/')) by {
            if init.contains('/') {
                let k = choose|k: int| 0 <= k < init.len() && init[k] == '/';
                assert(name[k] == '/');
            }
        }
        lemma_after_slash(dir, init);
        assert((dir + name).drop_last() =~= dir + init);
        assert(after_slash(dir + name) =~= after_slash(dir) + name);
    }
}

proof fn lemma_after_slash_part(dir: Seq<char>)
    ensures
        forall|c: char| #[trigger] after_slash(dir).contains(c) ==> dir.contains(c),
    decreases dir.len(),
{
    if dir.len() > 0 && dir.last() != '/' {
        lemma_after_slash_part(dir.drop_last());
        let a = after_slash(dir);
        let h = after_slash(dir.drop_last());
        assert forall|c: char| #[trigger] a.contains(c) implies dir.contains(c) by {
            let k = choose|k: int| 0 <= k < a.len() && a[k] == c;
            if k < h.len() {
                assert(h.contains(c));
                let m = choose|m: int| 0 <= m < dir.drop_last().len() && dir.drop_last()[m] == c;
                assert(dir[m] == c);
            } else {
                assert(dir[dir.len() - 1] == c);
            }
        }
    }
}

/// Whatever refers to a blob file refers to it by the content address of what it holds, in every
/// directory that ends in a separator.
pub proof fn law_blob_references(
    dir: Seq<char>,
    data: Seq<u8>,
    extension: Seq<char>,
    stem: Seq<char>,
    path: Option<Seq<char>>,
)
    requires
        extension == ".dib"@ || extension == ".html"@,
        crate::digest::address_of(data).len() > 0,
        plain_dir(dir) || backslash_dir(dir),
        !dir.contains('\0'),
        is_stem(dir + crate::content::blob_name(data, extension), Some(stem)),
        refers(path, stem),
    ensures
        refers(path, crate::digest::address_of(data)),
{
    reveal_strlit(".dib");
    reveal_strlit(".html");
    law_blob_names(data, extension);
    crate::digest::lemma_hex_chars(crate::digest::sha256_of(data));
    let a = crate::digest::address_of(data);
    let name = crate::content::blob_name(data, extension);
    let file = dir + name;
    if stem != a {
        let head = after_slash(dir);
        lemma_after_slash(dir, name);
        lemma_after_slash_part(dir);
        let whole = head + name;
        let n = (head.len() + a.len()) as int;
        assert(whole[n] == '.');
        assert forall|k: int| n < k < whole.len() implies #[trigger] whole[k] != '.' by {
            assert(whole[k] == extension[k - n]);
        }
        lemma_stem_at(whole, n);
        assert(whole.take(n) =~= head + a);
        assert(stem == head + a);
        let p = stem_pattern(stem);
        let q = stem_pattern(a);
        assert(!p.contains('\0')) by {
            if p.contains('\0') {
                let k = choose|k: int| 0 <= k < p.len() && p[k] == '\0';
                if 0 < k <= head.len() {
                    assert(head[k - 1] == '\0');
                    assert(head.contains('\0'));
                } else if head.len() < k < p.len() - 1 {
                    assert(a[k - 1 - head.len()] == '\0');
                }
            }
        }
        assert(!q.contains('\0')) by {
            if q.contains('\0') {
                let k = choose|k: int| 0 <= k < q.len() && q[k] == '\0';
                if 0 < k < q.len() - 1 {
                    assert(a[k - 1] == '\0');
                }
            }
        }
        crate::like::lemma_c_str_whole(p);
        crate::like::lemma_c_str_whole(q);
        crate::like::lemma_less_matches(head, a, crate::like::c_str(path->0));
    }
}

} // verus!
