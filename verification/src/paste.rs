//! Pasting back: what is put on the clipboard, and which keys make the target take it.

use crate::json::from_json;
use crate::rows::ClipRow;
use crate::text::{chars_of, contains_str, copy_range, join_strings, str_eq, string_of};
use vstd::prelude::*;
use vstd::string::*;

verus! {

/// The programs that take Shift+Insert for pasting: terminals, remote terminals, and editors with
/// a terminal inside.
pub open spec fn terminal_exes() -> Seq<Seq<char>> {
    seq![
        "windowsterminal.exe"@,
        "openconsole.exe"@,
        "conhost.exe"@,
        "cmd.exe"@,
        "powershell.exe"@,
        "pwsh.exe"@,
        "mintty.exe"@,
        "alacritty.exe"@,
        "wezterm-gui.exe"@,
        "tabby.exe"@,
        "kitty.exe"@,
        "hyper.exe"@,
        "warp.exe"@,
        "putty.exe"@,
        "termius.exe"@,
        "xshell.exe"@,
        "mobaxterm.exe"@,
        "securecrt.exe"@,
        "electerm.exe"@,
        "code.exe"@,
        "code - insiders.exe"@,
        "vscodium.exe"@,
        "codium.exe"@,
        "cursor.exe"@,
        "windsurf.exe"@,
        "trae.exe"@,
        "idea64.exe"@,
        "pycharm64.exe"@,
        "webstorm64.exe"@,
        "goland64.exe"@,
        "clion64.exe"@,
        "rider64.exe"@,
        "datagrip64.exe"@,
        "rubymine64.exe"@,
        "phpstorm64.exe"@,
        "studio64.exe"@,
    ]
}

/// The browsers. A terminal in a web page shows only in the title of the window.
pub open spec fn browser_exes() -> Seq<Seq<char>> {
    seq![
        "chrome.exe"@,
        "msedge.exe"@,
        "firefox.exe"@,
        "brave.exe"@,
        "opera.exe"@,
        "vivaldi.exe"@,
    ]
}

/// What the title of a browser window holds where the page is a terminal.
pub open spec fn terminal_words() -> Seq<Seq<char>> {
    seq![
        "terminal"@,
        "终端"@,
        "命令提示符"@,
        "命令行"@,
        "powershell"@,
        "pwsh"@,
        "bash"@,
        "ssh"@,
        "shell"@,
        "ttyd"@,
        "webssh"@,
        "xterm"@,
        "code-server"@,
        "visual studio code"@,
        "vscode"@,
        "控制台"@,
    ]
}

pub open spec fn str_views(list: Seq<&str>) -> Seq<Seq<char>> {
    Seq::new(list.len(), |i: int| list[i]@)
}

fn terminal_exe_list() -> (res: Vec<&'static str>)
    ensures
        str_views(res@) == terminal_exes(),
{
    let list = vec![
        "windowsterminal.exe",
        "openconsole.exe",
        "conhost.exe",
        "cmd.exe",
        "powershell.exe",
        "pwsh.exe",
        "mintty.exe",
        "alacritty.exe",
        "wezterm-gui.exe",
        "tabby.exe",
        "kitty.exe",
        "hyper.exe",
        "warp.exe",
        "putty.exe",
        "termius.exe",
        "xshell.exe",
        "mobaxterm.exe",
        "securecrt.exe",
        "electerm.exe",
        "code.exe",
        "code - insiders.exe",
        "vscodium.exe",
        "codium.exe",
        "cursor.exe",
        "windsurf.exe",
        "trae.exe",
        "idea64.exe",
        "pycharm64.exe",
        "webstorm64.exe",
        "goland64.exe",
        "clion64.exe",
        "rider64.exe",
        "datagrip64.exe",
        "rubymine64.exe",
        "phpstorm64.exe",
        "studio64.exe",
    ];
    assert(str_views(list@) =~= terminal_exes());
    list
}

fn browser_exe_list() -> (res: Vec<&'static str>)
    ensures
        str_views(res@) == browser_exes(),
{
    let list = vec![
        "chrome.exe",
        "msedge.exe",
        "firefox.exe",
        "brave.exe",
        "opera.exe",
        "vivaldi.exe",
    ];
    assert(str_views(list@) =~= browser_exes());
    list
}

fn terminal_word_list() -> (res: Vec<&'static str>)
    ensures
        str_views(res@) == terminal_words(),
{
    let list = vec![
        "terminal",
        "终端",
        "命令提示符",
        "命令行",
        "powershell",
        "pwsh",
        "bash",
        "ssh",
        "shell",
        "ttyd",
        "webssh",
        "xterm",
        "code-server",
        "visual studio code",
        "vscode",
        "控制台",
    ];
    assert(str_views(list@) =~= terminal_words());
    list
}

fn is_one_of(s: &str, list: &Vec<&'static str>) -> (res: bool)
    ensures
        res == str_views(list@).contains(s@),
{
    let ghost all = str_views(list@);
    for i in 0..list.len()
        invariant
            all == str_views(list@),
            forall|k: int| 0 <= k < i ==> all[k] != s@,
    {
        if str_eq(list[i], s) {
            assert(all[i as int] == s@);
            return true;
        }
    }
    false
}

/// What follows the last backslash of a path.
pub open spec fn after_backslash(path: Seq<char>) -> Seq<char>
    decreases path.len(),
{
    if path.len() == 0 || path.last() == '\\' {
        seq![]
    } else {
        after_backslash(path.drop_last()).push(path.last())
    }
}

/// What follows the last backslash starts behind it.
pub proof fn lemma_after_backslash(path: Seq<char>, from: int)
    requires
        0 <= from <= path.len(),
        from == 0 || path[from - 1] == '\\',
        forall|k: int| from <= k < path.len() ==> path[k] != '\\',
    ensures
        after_backslash(path) == path.skip(from),
    decreases path.len(),
{
    if path.len() == 0 || path.last() == '\\' {
        assert(from == path.len());
        assert(path.skip(from) =~= seq![]);
    } else {
        assert(from < path.len());
        lemma_after_backslash(path.drop_last(), from);
        assert(path.skip(from) =~= path.drop_last().skip(from).push(path.last()));
    }
}

/// The file name in the path of a program.
pub fn exe_name(path: &str) -> (res: String)
    ensures
        res@ == after_backslash(path@),
{
    let s = chars_of(path);
    let mut from: usize = s.len();
    while from > 0 && s[from - 1] != '\\'
        invariant
            from <= s@.len(),
            forall|k: int| from <= k < s@.len() ==> s@[k] != '\\',
        decreases from,
    {
        from -= 1;
    }
    proof {
        lemma_after_backslash(s@, from as int);
    }
    let name = copy_range(&s, from, s.len());
    assert(name@ =~= s@.skip(from as int));
    string_of(&name)
}

/// Whether a window takes Shift+Insert for pasting, by the path of its program and its title, both
/// in lower case: a terminal does, and so does a browser whose title names a terminal.
pub open spec fn shift_insert(path: Seq<char>, title: Seq<char>) -> bool {
    let exe = after_backslash(path);
    terminal_exes().contains(exe) || browser_exes().contains(exe) && exists|i: int|
        0 <= i < terminal_words().len() && crate::text::occurs(title, #[trigger] terminal_words()[i])
}

/// Whether a title in lower case names a terminal.
pub fn title_names_terminal(title: &str) -> (res: bool)
    ensures
        res == exists|i: int|
            0 <= i < terminal_words().len() && crate::text::occurs(
                title@,
                #[trigger] terminal_words()[i],
            ),
{
    let list = terminal_word_list();
    let ghost all = terminal_words();
    for i in 0..list.len()
        invariant
            all == str_views(list@),
            all == terminal_words(),
            forall|k: int| 0 <= k < i ==> !crate::text::occurs(title@, #[trigger] all[k]),
    {
        if contains_str(title, list[i]) {
            assert(crate::text::occurs(title@, all[i as int]));
            return true;
        }
    }
    false
}

/// Whether a window takes Shift+Insert for pasting, by the path of its program and its title, both
/// in lower case.
pub fn wants_shift_insert(path: &str, title: &str) -> (res: bool)
    ensures
        res == shift_insert(path@, title@),
{
    let exe = exe_name(path);
    if is_one_of(exe.as_str(), &terminal_exe_list()) {
        return true;
    }
    if is_one_of(exe.as_str(), &browser_exe_list()) {
        return title_names_terminal(title);
    }
    false
}

/// Whether a window takes Shift+Insert for pasting, by the path of its program, where that is
/// known, and its title.
pub fn target_wants_shift_insert(path: &Option<String>, title: &str) -> (res: bool)
    ensures
        res == match *path {
            Some(p) => shift_insert(
                crate::unicode::lowercase(p@),
                crate::unicode::lowercase(title@),
            ),
            None => false,
        },
{
    match path {
        Some(p) => wants_shift_insert(
            p.as_str().to_lowercase().as_str(),
            title.to_lowercase().as_str(),
        ),
        None => false,
    }
}

/// A key that goes down or up.
#[derive(Debug, Clone, Copy, PartialEq, Eq, Structural)]
pub struct KeyStroke {
    /// The virtual-key code.
    pub key: u16,
    pub up: bool,
    /// Whether the key is sent as an extended one. Without this, Insert is read as the 0 of the
    /// number pad.
    pub extended: bool,
}

pub const KEY_SHIFT: u16 = 0x10;

pub const KEY_CONTROL: u16 = 0x11;

pub const KEY_INSERT: u16 = 0x2D;

pub const KEY_V: u16 = 0x56;

/// The strokes that make the target paste: Shift+Insert or Ctrl+V.
pub open spec fn paste_strokes(shift_insert: bool) -> Seq<KeyStroke> {
    let modifier = if shift_insert {
        KEY_SHIFT
    } else {
        KEY_CONTROL
    };
    let key = if shift_insert {
        KEY_INSERT
    } else {
        KEY_V
    };
    seq![
        KeyStroke { key: modifier, up: false, extended: false },
        KeyStroke { key, up: false, extended: shift_insert },
        KeyStroke { key, up: true, extended: shift_insert },
        KeyStroke { key: modifier, up: true, extended: false },
    ]
}

/// The strokes that make the target paste: Shift+Insert or Ctrl+V.
pub fn paste_keys(shift_insert: bool) -> (res: Vec<KeyStroke>)
    ensures
        res@ == paste_strokes(shift_insert),
{
    let (modifier, key) = if shift_insert {
        (KEY_SHIFT, KEY_INSERT)
    } else {
        (KEY_CONTROL, KEY_V)
    };
    let mut out: Vec<KeyStroke> = Vec::new();
    out.push(KeyStroke { key: modifier, up: false, extended: false });
    out.push(KeyStroke { key, up: false, extended: shift_insert });
    out.push(KeyStroke { key, up: true, extended: shift_insert });
    out.push(KeyStroke { key: modifier, up: true, extended: false });
    assert(out@ =~= paste_strokes(shift_insert));
    out
}

/// Every key that goes down comes up again, the one that went down last first, and exactly Insert
/// is sent as an extended key.
pub proof fn law_keys_released(shift_insert: bool)
    ensures
        ({
            let s = paste_strokes(shift_insert);
            &&& s.len() == 4
            &&& forall|i: int|
                0 <= i < 4 ==> (#[trigger] s[i]).key == s[3 - i].key && s[i].up != s[3 - i].up
                    && s[i].up == (i >= 2) && s[i].extended == (s[i].key == KEY_INSERT)
        }),
{
}

/// The window that was in front, where there was one.
pub fn remembered_window(handle: isize) -> (res: Option<isize>)
    ensures
        res == if handle != 0 {
            Some(handle)
        } else {
            None
        },
{
    if handle != 0 {
        Some(handle)
    } else {
        None
    }
}

/// What pasting a clip puts on the clipboard.
#[derive(Debug)]
pub enum PastePlan {
    /// A text.
    Text(String),
    /// A text together with the document in the file at `html_path`, where that can be read.
    Rich { text: String, html_path: String },
    /// The bitmap in a file.
    Image(String),
}

#[verifier::ext_equal]
pub enum PlanView {
    Text(Seq<char>),
    Rich { text: Seq<char>, html_path: Seq<char> },
    Image(Seq<char>),
}

impl View for PastePlan {
    type V = PlanView;

    open spec fn view(&self) -> PlanView {
        match *self {
            PastePlan::Text(t) => PlanView::Text(t@),
            PastePlan::Rich { text, html_path } => PlanView::Rich {
                text: text@,
                html_path: html_path@,
            },
            PastePlan::Image(p) => PlanView::Image(p@),
        }
    }
}

/// Why a clip cannot be pasted.
#[derive(Debug, Clone, Copy, PartialEq, Eq, Structural)]
pub enum PasteError {
    /// The clip does not exist.
    NoRow,
    /// A clip of text has no text.
    NoText,
    /// The kind of the clip is none of the three.
    UnknownKind,
    /// There is no window to paste to.
    NoTarget,
}

impl PasteError {
    /// What the user is told.
    pub open spec fn text(self) -> Seq<char> {
        match self {
            PasteError::NoRow => "记录不存在"@,
            PasteError::NoText => "文本条目无内容"@,
            PasteError::UnknownKind => "未知条目类型"@,
            PasteError::NoTarget => "无回贴目标窗口"@,
        }
    }

    /// What the user is told.
    pub fn message(self) -> (res: &'static str)
        ensures
            res@ == self.text(),
    {
        match self {
            PasteError::NoRow => "记录不存在",
            PasteError::NoText => "文本条目无内容",
            PasteError::UnknownKind => "未知条目类型",
            PasteError::NoTarget => "无回贴目标窗口",
        }
    }
}

/// The window to paste to.
pub fn paste_target(last: Option<isize>) -> (res: Result<isize, PasteError>)
    ensures
        res == match last {
            Some(w) => Ok::<isize, PasteError>(w),
            None => Err(PasteError::NoTarget),
        },
{
    match last {
        Some(w) => Ok(w),
        None => Err(PasteError::NoTarget),
    }
}

/// The text that stands for a list of files: one path a line. A text that is no list of paths
/// stands for the empty list.
pub open spec fn files_text(files: Option<Seq<Seq<char>>>) -> Seq<char> {
    match files {
        Some(list) => crate::text::joined(list, "\r\n"@),
        None => seq![],
    }
}

/// What pasting a clip puts on the clipboard. `files` are the paths that the clip's list of files
/// stands for.
pub open spec fn plan_of(row: crate::rows::ClipView, files: Option<Seq<Seq<char>>>) -> Result<
    PlanView,
    PasteError,
> {
    if row.kind == "text"@ {
        match (row.text, row.html_path) {
            (Some(text), Some(html_path)) => Ok(PlanView::Rich { text, html_path }),
            (Some(text), None) => Ok(PlanView::Text(text)),
            (None, _) => Err(PasteError::NoText),
        }
    } else if row.kind == "image"@ {
        Ok(
            PlanView::Image(
                match row.image_path {
                    Some(p) => p,
                    None => seq![],
                },
            ),
        )
    } else if row.kind == "files"@ {
        Ok(PlanView::Text(files_text(files)))
    } else {
        Err(PasteError::UnknownKind)
    }
}

/// What pasting a clip puts on the clipboard, given the paths that its list of files stands for.
pub fn plan_with_files(row: &ClipRow, files: &Option<Vec<String>>) -> (res: Result<
    PastePlan,
    PasteError,
>)
    ensures
        match (res, plan_of(row@, crate::text::opt_views(*files))) {
            (Ok(p), Ok(v)) => p@ == v,
            (Err(e), Err(f)) => e == f,
            _ => false,
        },
{
    if str_eq(row.kind.as_str(), "text") {
        match (&row.text, &row.html_path) {
            (Some(text), Some(html_path)) => Ok(
                PastePlan::Rich { text: text.clone(), html_path: html_path.clone() },
            ),
            (Some(text), None) => Ok(PastePlan::Text(text.clone())),
            (None, _) => Err(PasteError::NoText),
        }
    } else if str_eq(row.kind.as_str(), "image") {
        Ok(
            PastePlan::Image(
                match &row.image_path {
                    Some(p) => p.clone(),
                    None => String::new(),
                },
            ),
        )
    } else if str_eq(row.kind.as_str(), "files") {
        Ok(
            PastePlan::Text(
                match files {
                    Some(list) => join_strings(list, "\r\n"),
                    None => String::new(),
                },
            ),
        )
    } else {
        Err(PasteError::UnknownKind)
    }
}

/// The JSON text of a clip's list of files; empty where it has none.
pub open spec fn files_json_of(row: crate::rows::ClipView) -> Seq<char> {
    match row.files_json {
        Some(j) => j,
        None => seq![],
    }
}

/// What pasting a clip puts on the clipboard. A list of files that an event brought is pasted as
/// the paths of that event.
pub fn paste_plan(row: &ClipRow) -> (res: Result<PastePlan, PasteError>)
    ensures
        match (res, plan_of(row@, crate::json::json_strings(files_json_of(row@)))) {
            (Ok(p), Ok(v)) => p@ == v,
            (Err(e), Err(f)) => e == f,
            _ => false,
        },
        forall|l: Seq<Seq<char>>|
            row@.kind == "files"@ && #[trigger] crate::json::json_array(l) == files_json_of(row@)
                ==> res is Ok && res->Ok_0@ == PlanView::Text(crate::text::joined(l, "\r\n"@)),
{
    let json = match &row.files_json {
        Some(j) => j.clone(),
        None => String::new(),
    };
    proof {
        reveal_strlit("text");
        reveal_strlit("image");
        reveal_strlit("files");
        assert("files"@[0] != "text"@[0]);
        assert("files"@[0] != "image"@[0]);
    }
    let files = from_json(json.as_str());
    plan_with_files(row, &files)
}

} // verus!
