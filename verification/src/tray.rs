//! The tray icon: what its menu items do, and what it says.

use crate::text::str_eq;
use crate::window::Tab;
use vstd::prelude::*;

verus! {

/// What a menu item does.
#[derive(Debug, Clone, Copy, PartialEq, Eq, Structural)]
pub enum MenuAction {
    /// Hides the main window, or brings it up on the given side.
    Toggle(Tab),
    /// Pauses watching, or goes on with it.
    Pause,
    /// Deletes the history but for its pinned clips.
    Clear,
    /// Opens the page of the project.
    About,
    Quit,
}

/// What the menu item with the given name does.
pub open spec fn action_of(id: Seq<char>) -> Option<MenuAction> {
    if id == "show"@ {
        Some(MenuAction::Toggle(Tab::Clips))
    } else if id == "todos"@ {
        Some(MenuAction::Toggle(Tab::Todos))
    } else if id == "pause"@ {
        Some(MenuAction::Pause)
    } else if id == "clear"@ {
        Some(MenuAction::Clear)
    } else if id == "about"@ {
        Some(MenuAction::About)
    } else if id == "quit"@ {
        Some(MenuAction::Quit)
    } else {
        None
    }
}

/// What the menu item with the given name does.
pub fn menu_action(id: &str) -> (res: Option<MenuAction>)
    ensures
        res == action_of(id@),
{
    if str_eq(id, "show") {
        Some(MenuAction::Toggle(Tab::Clips))
    } else if str_eq(id, "todos") {
        Some(MenuAction::Toggle(Tab::Todos))
    } else if str_eq(id, "pause") {
        Some(MenuAction::Pause)
    } else if str_eq(id, "clear") {
        Some(MenuAction::Clear)
    } else if str_eq(id, "about") {
        Some(MenuAction::About)
    } else if str_eq(id, "quit") {
        Some(MenuAction::Quit)
    } else {
        None
    }
}

/// What the icon says of itself.
pub fn tooltip(paused: bool) -> (res: &'static str)
    ensures
        res@ == if paused {
            "clipwin · 已暂停监听"@
        } else {
            "clipwin · Ctrl+Alt+Q 唤出"@
        },
{
    if paused {
        "clipwin · 已暂停监听"
    } else {
        "clipwin · Ctrl+Alt+Q 唤出"
    }
}

} // verus!
