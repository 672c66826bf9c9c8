//! Laws of pasting: what goes on the clipboard, and how the target is made to take it.

use crate::commands::{paste_back, paste_back_at};
use crate::paste::{
    exe_name, paste_keys, paste_plan, paste_target, remembered_window, target_wants_shift_insert,
    wants_shift_insert, KeyStroke, PasteError, PastePlan,
};
use crate::rows::{ClipEvent, ClipRow};
use crate::store::{Store, StoreError};
use vstd::prelude::*;

verus! {

/// Pasting a clip of text puts its text on the clipboard, character for character, together with
/// its document where it has one. Without a text there is nothing to paste.
pub proof fn law_text_pasted(row: &ClipRow, res: Result<PastePlan, PasteError>)
    requires
        call_ensures(paste_plan, (row,), res),
        row.kind@ == "text"@,
    ensures
        row.text is None ==> res == Err::<PastePlan, PasteError>(PasteError::NoText),
        row.text is Some && row.html_path is None ==> (res matches Ok(PastePlan::Text(t)) && t@
            == row.text->0@),
        row.text is Some && row.html_path is Some ==> (res matches Ok(
            PastePlan::Rich { text, html_path },
        ) && text@ == row.text->0@ && html_path@ == row.html_path->0@),
{
    assert(row@.text == crate::rows::opt_view(row.text));
}

/// Pasting a clip of an image puts the bitmap in its file on the clipboard.
pub proof fn law_image_pasted(row: &ClipRow, res: Result<PastePlan, PasteError>)
    requires
        call_ensures(paste_plan, (row,), res),
        row.kind@ == "image"@,
    ensures
        res matches Ok(PastePlan::Image(p)) && p@ == match row.image_path {
            Some(path) => path@,
            None => seq![],
        },
{
    lemma_kinds_differ();
    assert(row@.image_path == crate::rows::opt_view(row.image_path));
}

/// Pasting a clip of files puts the paths on the clipboard, one a line.
pub proof fn law_files_pasted(
    row: &ClipRow,
    files: Seq<Seq<char>>,
    res: Result<PastePlan, PasteError>,
)
    requires
        call_ensures(paste_plan, (row,), res),
        row.kind@ == "files"@,
        row.files_json is Some,
        row.files_json->0@ == crate::json::json_array(files),
    ensures
        res matches Ok(PastePlan::Text(t)) && t@ == crate::text::joined(files, seq!['\r', '\n']),
{
    reveal_strlit("\r\n");
    assert("\r\n"@ =~= seq!['\r', '\n']);
    assert(crate::paste::files_json_of(row@) == crate::json::json_array(files));
}

/// A clip of files is pasted as the paths that its JSON text is read as, and as nothing where the
/// text cannot be read. A missing text is an empty one.
pub proof fn law_read_files_pasted(row: &ClipRow, res: Result<PastePlan, PasteError>)
    requires
        call_ensures(paste_plan, (row,), res),
        row.kind@ == "files"@,
    ensures
        ({
            let json = match row.files_json {
                Some(j) => j@,
                None => seq![],
            };
            res matches Ok(PastePlan::Text(t)) && t@ == match crate::json::json_strings(json) {
                Some(files) => crate::text::joined(files, seq!['\r', '\n']),
                None => seq![],
            }
        }),
{
    lemma_kinds_differ();
    reveal_strlit("\r\n");
    assert("\r\n"@ =~= seq!['\r', '\n']);
    assert(row@.files_json == crate::rows::opt_view(row.files_json));
}

/// A clip of any other kind is not pasted.
pub proof fn law_other_kinds_not_pasted(row: &ClipRow, res: Result<PastePlan, PasteError>)
    requires
        call_ensures(paste_plan, (row,), res),
        row.kind@ != "text"@,
        row.kind@ != "image"@,
        row.kind@ != "files"@,
    ensures
        res == Err::<PastePlan, PasteError>(PasteError::UnknownKind),
{
}

/// The three kinds are different words.
pub proof fn lemma_kinds_differ()
    ensures
        "text"@ != "image"@,
        "text"@ != "files"@,
        "image"@ != "files"@,
{
    reveal_strlit("text");
    reveal_strlit("image");
    reveal_strlit("files");
    assert("text"@[0] != "image"@[0]);
    assert("text"@[0] != "files"@[0]);
    assert("image"@[0] != "files"@[0]);
}

/// Pasting a clip back brings it to the current time, changes nothing else, and puts on the
/// clipboard what the clip is pasted as. A clip that is not there cannot be pasted.
pub proof fn law_paste_back(
    s: &mut Store,
    id: i64,
    now: i64,
    res: Result<PastePlan, PasteError>,
    row: &ClipRow,
    plan: Result<PastePlan, PasteError>,
    k: int,
)
    requires
        old(s).wf(),
        call_ensures(paste_back_at, (s, id, now), res),
        0 <= k < old(s)@.clips.len(),
        old(s)@.clips[k].id == id,
        row@ == old(s)@.clips[k],
        call_ensures(paste_plan, (row,), plan),
    ensures
        crate::laws::history::only_clip_changed(old(s)@, final(s)@, k),
        final(s)@.clips[k] == (crate::rows::ClipView { ts: now, ..old(s)@.clips[k] }),
        plan is Ok ==> res is Ok && res->Ok_0@ == plan->Ok_0@,
        plan is Err ==> res == plan,
{
    old(s).lemma_valid();
    crate::laws::history::lemma_clip_found(old(s)@.clips, k);
    crate::laws::history::lemma_ids_apart(old(s)@.clips, k);
}

/// The same at the current time.
pub proof fn law_paste_back_now(
    s: &mut Store,
    id: i64,
    res: Result<PastePlan, PasteError>,
    row: &ClipRow,
    plan: Result<PastePlan, PasteError>,
    k: int,
)
    requires
        old(s).wf(),
        call_ensures(paste_back, (s, id), res),
        0 <= k < old(s)@.clips.len(),
        old(s)@.clips[k].id == id,
        row@ == old(s)@.clips[k],
        call_ensures(paste_plan, (row,), plan),
    ensures
        crate::laws::history::only_clip_changed(old(s)@, final(s)@, k),
        crate::clock::is_now(final(s)@.clips[k].ts),
        final(s)@.clips[k] == (crate::rows::ClipView {
            ts: final(s)@.clips[k].ts,
            ..old(s)@.clips[k]
        }),
        plan is Ok ==> res is Ok && res->Ok_0@ == plan->Ok_0@,
        plan is Err ==> res == plan,
{
    old(s).lemma_valid();
    crate::laws::history::lemma_clip_found(old(s)@.clips, k);
    crate::laws::history::lemma_ids_apart(old(s)@.clips, k);
}

/// A clip that is not there cannot be pasted, and nothing changes.
pub proof fn law_absent_clip_not_pasted(
    s: &mut Store,
    id: i64,
    now: i64,
    res: Result<PastePlan, PasteError>,
    t: &mut Store,
    at_once: Result<PastePlan, PasteError>,
)
    requires
        old(s).wf(),
        call_ensures(paste_back_at, (s, id, now), res),
        old(t).wf(),
        old(t)@ == old(s)@,
        call_ensures(paste_back, (t, id), at_once),
        forall|i: int| 0 <= i < old(s)@.clips.len() ==> (#[trigger] old(s)@.clips[i]).id != id,
    ensures
        res == Err::<PastePlan, PasteError>(PasteError::NoRow),
        final(s)@ == old(s)@,
        at_once == Err::<PastePlan, PasteError>(PasteError::NoRow),
        final(t)@ == old(t)@,
{
    assert(final(s)@.clips =~= old(s)@.clips);
    assert(final(t)@.clips =~= old(t)@.clips);
}

/// A text that was copied and is new to the history comes back as it was when its clip is pasted,
/// character for character.
pub proof fn law_copied_text_comes_back(
    s: &mut Store,
    ev: &ClipEvent,
    on_disk: &Option<Vec<u8>>,
    id: i64,
    t: &mut Store,
    now: i64,
    res: Result<PastePlan, PasteError>,
)
    requires
        old(s).wf(),
        call_ensures(Store::insert, (s, ev, on_disk), Ok::<i64, StoreError>(id)),
        final(s)@.clips.len() > old(s)@.clips.len(),
        ev.text is Some,
        old(t).wf(),
        old(t)@ == final(s)@,
        call_ensures(paste_back_at, (t, id, now), res),
    ensures
        match res {
            Ok(PastePlan::Text(x)) => x@ == ev.text->0@,
            Ok(PastePlan::Rich { text, html_path }) => text@ == ev.text->0@,
            _ => false,
        },
{
    old(s).lemma_valid();
    old(t).lemma_valid();
    let v = old(s)@;
    let clips = old(t)@.clips;
    let k = clips.len() - 1;
    assert(clips[k].text == Some(ev.text->0@));
    assert(clips[k].kind == "text"@);
    assert(clips[k].id == id);
    crate::laws::history::lemma_clip_found(clips, k);
}

/// Files that were copied and are new to the history come back as their paths, one a line, and a
/// bitmap as the one in the file that is named by its digest.
pub proof fn law_copied_files_come_back(
    s: &mut Store,
    ev: &ClipEvent,
    on_disk: &Option<Vec<u8>>,
    id: i64,
    row: &ClipRow,
    plan: Result<PastePlan, PasteError>,
)
    requires
        old(s).wf(),
        call_ensures(Store::insert, (s, ev, on_disk), Ok::<i64, StoreError>(id)),
        final(s)@.clips.len() > old(s)@.clips.len(),
        ev.text is None,
        row@ == final(s)@.clips.last(),
        call_ensures(paste_plan, (row,), plan),
    ensures
        row.id == id,
        ev.dib is Some ==> (plan matches Ok(PastePlan::Image(p)) && p@ == old(s)@.blob_dir
            + crate::digest::hex_text(crate::digest::sha256_of(ev.dib->0@)) + ".dib"@),
        ev.dib is None && ev.files is Some ==> (plan matches Ok(PastePlan::Text(t)) && t@
            == crate::text::joined(crate::text::views(ev.files->0@), seq!['\r', '\n'])),
{
    old(s).lemma_valid();
    lemma_kinds_differ();
    reveal_strlit("\r\n");
    assert("\r\n"@ =~= seq!['\r', '\n']);
    let c = final(s)@.clips.last();
    assert(row@.id == row.id);
    if ev.dib is Some {
        let dir = old(s)@.blob_dir;
        let name = crate::digest::hex_text(crate::digest::sha256_of(ev.dib->0@));
        assert(dir + name + ".dib"@ =~= dir + (name + ".dib"@));
        assert(c.kind == "image"@);
    } else if ev.files is Some {
        let json = crate::json::json_array(crate::text::views(ev.files->0@));
        assert(c.kind == "files"@);
        assert(crate::paste::files_json_of(row@) == json);
    }
}

/// The name of a program is what stands behind the last backslash of its path.
pub proof fn law_program_name(path: &str, dir: Seq<char>, name: Seq<char>, res: String)
    requires
        call_ensures(exe_name, (path,), res),
        !name.contains('\\'),
        path@ == dir + seq!['\\'] + name || path@ == name,
    ensures
        res@ == name,
{
    lemma_program_name(path@, dir, name);
}

proof fn lemma_program_name(path: Seq<char>, dir: Seq<char>, name: Seq<char>)
    requires
        !name.contains('\\'),
        path == dir + seq!['\\'] + name || path == name,
    ensures
        crate::paste::after_backslash(path) == name,
{
    let from = path.len() - name.len();
    assert forall|k: int| from <= k < path.len() implies path[k] != '\\' by {
        assert(path[k] == name[k - from]);
        assert(name.contains(name[k - from]));
    }
    crate::paste::lemma_after_backslash(path, from);
    assert(path.skip(from) =~= name);
}

/// The terminals, remote terminals and editors with a terminal inside.
pub open spec fn is_terminal_program(name: Seq<char>) -> bool {
    ||| name == "windowsterminal.exe"@
    ||| name == "openconsole.exe"@
    ||| name == "conhost.exe"@
    ||| name == "cmd.exe"@
    ||| name == "powershell.exe"@
    ||| name == "pwsh.exe"@
    ||| name == "mintty.exe"@
    ||| name == "alacritty.exe"@
    ||| name == "wezterm-gui.exe"@
    ||| name == "tabby.exe"@
    ||| name == "kitty.exe"@
    ||| name == "hyper.exe"@
    ||| name == "warp.exe"@
    ||| name == "putty.exe"@
    ||| name == "termius.exe"@
    ||| name == "xshell.exe"@
    ||| name == "mobaxterm.exe"@
    ||| name == "securecrt.exe"@
    ||| name == "electerm.exe"@
    ||| name == "code.exe"@
    ||| name == "code - insiders.exe"@
    ||| name == "vscodium.exe"@
    ||| name == "codium.exe"@
    ||| name == "cursor.exe"@
    ||| name == "windsurf.exe"@
    ||| name == "trae.exe"@
    ||| name == "idea64.exe"@
    ||| name == "pycharm64.exe"@
    ||| name == "webstorm64.exe"@
    ||| name == "goland64.exe"@
    ||| name == "clion64.exe"@
    ||| name == "rider64.exe"@
    ||| name == "datagrip64.exe"@
    ||| name == "rubymine64.exe"@
    ||| name == "phpstorm64.exe"@
    ||| name == "studio64.exe"@
}

/// The browsers.
pub open spec fn is_browser(name: Seq<char>) -> bool {
    ||| name == "chrome.exe"@
    ||| name == "msedge.exe"@
    ||| name == "firefox.exe"@
    ||| name == "brave.exe"@
    ||| name == "opera.exe"@
    ||| name == "vivaldi.exe"@
}

/// The words in the title of a web page that is a terminal.
pub open spec fn is_terminal_word(word: Seq<char>) -> bool {
    ||| word == "terminal"@
    ||| word == "终端"@
    ||| word == "命令提示符"@
    ||| word == "命令行"@
    ||| word == "powershell"@
    ||| word == "pwsh"@
    ||| word == "bash"@
    ||| word == "ssh"@
    ||| word == "shell"@
    ||| word == "ttyd"@
    ||| word == "webssh"@
    ||| word == "xterm"@
    ||| word == "code-server"@
    ||| word == "visual studio code"@
    ||| word == "vscode"@
    ||| word == "控制台"@
}

proof fn lemma_terminal_program(name: Seq<char>)
    ensures
        crate::paste::terminal_exes().contains(name) <==> is_terminal_program(name),
{
    let list = crate::paste::terminal_exes();
    assert(list[0] == "windowsterminal.exe"@);
    assert(list[1] == "openconsole.exe"@);
    assert(list[2] == "conhost.exe"@);
    assert(list[3] == "cmd.exe"@);
    assert(list[4] == "powershell.exe"@);
    assert(list[5] == "pwsh.exe"@);
    assert(list[6] == "mintty.exe"@);
    assert(list[7] == "alacritty.exe"@);
    assert(list[8] == "wezterm-gui.exe"@);
    assert(list[9] == "tabby.exe"@);
    assert(list[10] == "kitty.exe"@);
    assert(list[11] == "hyper.exe"@);
    assert(list[12] == "warp.exe"@);
    assert(list[13] == "putty.exe"@);
    assert(list[14] == "termius.exe"@);
    assert(list[15] == "xshell.exe"@);
    assert(list[16] == "mobaxterm.exe"@);
    assert(list[17] == "securecrt.exe"@);
    assert(list[18] == "electerm.exe"@);
    assert(list[19] == "code.exe"@);
    assert(list[20] == "code - insiders.exe"@);
    assert(list[21] == "vscodium.exe"@);
    assert(list[22] == "codium.exe"@);
    assert(list[23] == "cursor.exe"@);
    assert(list[24] == "windsurf.exe"@);
    assert(list[25] == "trae.exe"@);
    assert(list[26] == "idea64.exe"@);
    assert(list[27] == "pycharm64.exe"@);
    assert(list[28] == "webstorm64.exe"@);
    assert(list[29] == "goland64.exe"@);
    assert(list[30] == "clion64.exe"@);
    assert(list[31] == "rider64.exe"@);
    assert(list[32] == "datagrip64.exe"@);
    assert(list[33] == "rubymine64.exe"@);
    assert(list[34] == "phpstorm64.exe"@);
    assert(list[35] == "studio64.exe"@);
    if list.contains(name) {
        let i = choose|i: int| 0 <= i < list.len() && list[i] == name;
        assert(is_terminal_program(list[i]));
    }
}

proof fn lemma_browser(name: Seq<char>)
    ensures
        crate::paste::browser_exes().contains(name) <==> is_browser(name),
{
    let list = crate::paste::browser_exes();
    assert(list[0] == "chrome.exe"@);
    assert(list[1] == "msedge.exe"@);
    assert(list[2] == "firefox.exe"@);
    assert(list[3] == "brave.exe"@);
    assert(list[4] == "opera.exe"@);
    assert(list[5] == "vivaldi.exe"@);
    if list.contains(name) {
        let i = choose|i: int| 0 <= i < list.len() && list[i] == name;
        assert(is_browser(list[i]));
    }
}

proof fn lemma_terminal_word(word: Seq<char>)
    ensures
        crate::paste::terminal_words().contains(word) <==> is_terminal_word(word),
{
    let list = crate::paste::terminal_words();
    assert(list[0] == "terminal"@);
    assert(list[1] == "终端"@);
    assert(list[2] == "命令提示符"@);
    assert(list[3] == "命令行"@);
    assert(list[4] == "powershell"@);
    assert(list[5] == "pwsh"@);
    assert(list[6] == "bash"@);
    assert(list[7] == "ssh"@);
    assert(list[8] == "shell"@);
    assert(list[9] == "ttyd"@);
    assert(list[10] == "webssh"@);
    assert(list[11] == "xterm"@);
    assert(list[12] == "code-server"@);
    assert(list[13] == "visual studio code"@);
    assert(list[14] == "vscode"@);
    assert(list[15] == "控制台"@);
    if list.contains(word) {
        let i = choose|i: int| 0 <= i < list.len() && list[i] == word;
        assert(is_terminal_word(list[i]));
    }
}

/// A window takes Shift+Insert where its program is a terminal, or a browser with a title that
/// names one anywhere; another window does not.
pub proof fn law_shift_insert(
    path: &str,
    title: &str,
    dir: Seq<char>,
    name: Seq<char>,
    res: bool,
)
    requires
        call_ensures(wants_shift_insert, (path, title), res),
        !name.contains('\\'),
        path@ == dir + seq!['\\'] + name || path@ == name,
    ensures
        res <==> is_terminal_program(name) || (is_browser(name) && exists|a: Seq<char>, word: Seq<
            char,
        >, b: Seq<char>| is_terminal_word(word) && title@ == #[trigger] (a + word + b)),
{
    lemma_program_name(path@, dir, name);
    lemma_terminal_program(name);
    lemma_browser(name);
    let words = crate::paste::terminal_words();
    if exists|i: int| 0 <= i < words.len() && crate::text::occurs(title@, #[trigger] words[i]) {
        let i = choose|i: int|
            0 <= i < words.len() && crate::text::occurs(title@, #[trigger] words[i]);
        let word = words[i];
        assert(words.contains(word));
        lemma_terminal_word(word);
        crate::laws::texts::law_occurs(title@, word);
        let (a, b) = choose|a: Seq<char>, b: Seq<char>| title@ == #[trigger] (a + word + b);
        assert(is_terminal_word(word) && title@ == a + word + b);
    }
    if exists|a: Seq<char>, word: Seq<char>, b: Seq<char>|
        is_terminal_word(word) && title@ == #[trigger] (a + word + b) {
        let (a, word, b) = choose|a: Seq<char>, word: Seq<char>, b: Seq<char>|
            is_terminal_word(word) && title@ == #[trigger] (a + word + b);
        lemma_terminal_word(word);
        let i = choose|i: int| 0 <= i < words.len() && words[i] == word;
        crate::laws::texts::law_occurs(title@, word);
        assert(crate::text::occurs(title@, words[i]));
    }
}

/// A window is judged by the lower-case forms of its program's path and its title; one whose
/// program is not known takes Ctrl+V.
pub proof fn law_target_in_lower_case(
    path: &Option<String>,
    title: &str,
    low_path: &str,
    low_title: &str,
    a: bool,
    b: bool,
)
    requires
        call_ensures(target_wants_shift_insert, (path, title), a),
        call_ensures(wants_shift_insert, (low_path, low_title), b),
        path is Some ==> low_path@ == crate::unicode::lowercase(path->0@),
        low_title@ == crate::unicode::lowercase(title@),
    ensures
        path is Some ==> a == b,
        path is None ==> !a,
{
}

/// The strokes by their codes: Shift (10h) and Insert (2Dh, an extended key), or Control (11h)
/// and V (56h); both go down, and come up in the opposite order.
pub proof fn law_strokes(shift_insert: bool, res: Vec<KeyStroke>)
    requires
        call_ensures(paste_keys, (shift_insert,), res),
    ensures
        res@.len() == 4,
        forall|i: int| 0 <= i < 4 ==> (#[trigger] res@[i]).up == (i >= 2),
        res@[0].key == res@[3].key == if shift_insert {
            0x10u16
        } else {
            0x11u16
        },
        res@[1].key == res@[2].key == if shift_insert {
            0x2du16
        } else {
            0x56u16
        },
        !res@[0].extended && !res@[3].extended,
        res@[1].extended == shift_insert && res@[2].extended == shift_insert,
{
}

/// The window that was in front is the one that is pasted to; without one there is no target.
pub proof fn law_target(handle: isize, last: Option<isize>, res: Result<isize, PasteError>)
    requires
        call_ensures(remembered_window, (handle,), last),
        call_ensures(paste_target, (last,), res),
    ensures
        handle != 0 ==> res == Ok::<isize, PasteError>(handle),
        handle == 0 ==> res == Err::<isize, PasteError>(PasteError::NoTarget),
{
}

} // verus!
