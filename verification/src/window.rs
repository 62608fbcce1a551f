//! The menu bar, the tray menu and the main window's show/hide behaviour.
//!
//! Closing the main window hides it to the tray instead of quitting; a
//! left click on the tray icon toggles it; Quit (menu or tray) exits.
use vstd::prelude::*;

use crate::text::text_eq;

verus! {

/// Menu id: reload the page.
pub const MENU_RELOAD: &'static str = "reload";

/// Menu id: start or restart the backend.
pub const MENU_RESTART: &'static str = "restart";

/// Menu id: toggle the web view's developer tools.
pub const MENU_DEVTOOLS: &'static str = "devtools";

/// Menu id: quit.
pub const MENU_QUIT: &'static str = "quit";

/// Tray menu id: show or hide the main window.
pub const TRAY_SHOW_HIDE: &'static str = "tray-show-hide";

/// The label of the main window.
pub const MAIN_WINDOW: &'static str = "main";

/// What choosing a menu item does.
#[derive(Debug, Clone, Copy, PartialEq, Eq, Structural)]
pub enum MenuAction {
    /// Reload the page in the main window.
    Reload,
    /// Start or restart the backend.
    RestartBackend,
    /// Open the developer tools when closed, close them when open.
    ToggleDevtools,
    /// Show the main window when hidden, hide it when shown.
    ToggleWindow,
    /// Exit the application.
    Quit,
    /// Nothing (an id this menu does not know).
    Nothing,
}

/// What choosing the menu-bar item `id` does.
pub open spec fn menu_action_of(id: Seq<char>) -> MenuAction {
    if id == "reload"@ {
        MenuAction::Reload
    } else if id == "restart"@ {
        MenuAction::RestartBackend
    } else if id == "devtools"@ {
        MenuAction::ToggleDevtools
    } else if id == "quit"@ {
        MenuAction::Quit
    } else {
        MenuAction::Nothing
    }
}

/// What choosing the menu-bar item with id `id` does.
pub fn menu_action(id: &str) -> (r: MenuAction)
    ensures
        r == menu_action_of(id@),
{
    if text_eq(id, MENU_RELOAD) {
        MenuAction::Reload
    } else if text_eq(id, MENU_RESTART) {
        MenuAction::RestartBackend
    } else if text_eq(id, MENU_DEVTOOLS) {
        MenuAction::ToggleDevtools
    } else if text_eq(id, MENU_QUIT) {
        MenuAction::Quit
    } else {
        MenuAction::Nothing
    }
}

/// What choosing the tray-menu item `id` does.
pub open spec fn tray_action_of(id: Seq<char>) -> MenuAction {
    if id == "tray-show-hide"@ {
        MenuAction::ToggleWindow
    } else if id == "reload"@ {
        MenuAction::Reload
    } else if id == "restart"@ {
        MenuAction::RestartBackend
    } else if id == "quit"@ {
        MenuAction::Quit
    } else {
        MenuAction::Nothing
    }
}

/// What choosing the tray-menu item with id `id` does.
pub fn tray_menu_action(id: &str) -> (r: MenuAction)
    ensures
        r == tray_action_of(id@),
{
    if text_eq(id, TRAY_SHOW_HIDE) {
        MenuAction::ToggleWindow
    } else if text_eq(id, MENU_RELOAD) {
        MenuAction::Reload
    } else if text_eq(id, MENU_RESTART) {
        MenuAction::RestartBackend
    } else if text_eq(id, MENU_QUIT) {
        MenuAction::Quit
    } else {
        MenuAction::Nothing
    }
}

/// Whether a close request for the window labelled `label` is turned into
/// hiding it (only the main window is kept alive in the tray).
pub fn hides_on_close(label: &str) -> (r: bool)
    ensures
        r == (label@ == "main"@),
{
    text_eq(label, MAIN_WINDOW)
}

/// What toggling the main window does.
#[derive(Debug, Clone, Copy, PartialEq, Eq, Structural)]
pub enum ToggleAction {
    /// Hide it.
    Hide,
    /// Show it and give it the focus.
    ShowAndFocus,
}

/// What toggling does to a window whose visibility is `visible`.
pub open spec fn toggle_of(visible: Option<bool>) -> ToggleAction {
    if visible == Some(true) {
        ToggleAction::Hide
    } else {
        ToggleAction::ShowAndFocus
    }
}

/// Whether the main window is visible after `action`.
pub open spec fn visible_after(action: ToggleAction) -> bool {
    match action {
        ToggleAction::Hide => false,
        ToggleAction::ShowAndFocus => true,
    }
}

/// What toggling the main window does, given whether it is visible (none
/// when that could not be found out): a visible window is hidden; any other
/// is shown and focused.
pub fn toggle_action(visible: Option<bool>) -> (r: ToggleAction)
    ensures
        r == toggle_of(visible),
{
    match visible {
        Some(true) => ToggleAction::Hide,
        _ => ToggleAction::ShowAndFocus,
    }
}

/// The menu bar and the tray menu share their ids: Reload, Restart Backend
/// and Quit do the same from either, and only the tray can show or hide the
/// window while only the menu bar toggles the developer tools.
pub proof fn law_menus_agree(id: Seq<char>)
    ensures
        id == "reload"@ || id == "restart"@ || id == "quit"@ ==> menu_action_of(id)
            == tray_action_of(id),
        menu_action_of(id) != MenuAction::ToggleWindow,
        tray_action_of(id) != MenuAction::ToggleDevtools,
{
    reveal_strlit("tray-show-hide");
    reveal_strlit("reload");
    reveal_strlit("restart");
    reveal_strlit("quit");
    reveal_strlit("devtools");
    assert("tray-show-hide"@.len() == 14);
    assert("reload"@.len() == 6);
    assert("restart"@.len() == 7);
    assert("quit"@.len() == 4);
    assert("devtools"@.len() == 8);
    assert("reload"@ != "tray-show-hide"@);
    assert("restart"@ != "tray-show-hide"@);
    assert("quit"@ != "tray-show-hide"@);
    assert("reload"@ != "restart"@);
    assert("quit"@ != "devtools"@);
    assert("quit"@ != "restart"@);
    assert("quit"@ != "reload"@);
}

/// Toggling flips the main window's visibility when it is known (a window
/// whose visibility is unknown ends up shown), so two toggles in a row
/// restore it.
pub proof fn law_toggle_twice(visible: bool)
    ensures
        visible_after(toggle_of(Some(visible))) == !visible,
        visible_after(toggle_of(Some(visible_after(toggle_of(Some(visible)))))) == visible,
        visible_after(toggle_of(None)),
{
}

} // verus!
