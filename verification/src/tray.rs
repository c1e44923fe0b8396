//! The menu of the tray.

use crate::text::same_str;
use vstd::prelude::*;

verus! {

/// What a menu item does.
#[derive(Clone, Copy, PartialEq, Eq, Structural, Debug)]
pub enum MenuAction {
    /// Show the main window.
    OpenMain,
    /// Show the settings, in a window of their own.
    OpenSettings,
    /// Open the folder of the recordings.
    OpenRecordings,
    /// Delete the recordings, once the user has confirmed it.
    DeleteRecordings,
    /// Hide the main window.
    HideMain,
    /// Switch the debug line over.
    ToggleDebugStats,
    /// End the app.
    Quit,
    /// Nothing.
    Ignore,
}

/// What the menu item with a name does.
pub open spec fn action_of(id: Seq<char>) -> MenuAction {
    if id == "open_settings"@ {
        MenuAction::OpenMain
    } else if id == "open_settings_window"@ {
        MenuAction::OpenSettings
    } else if id == "open_recordings"@ {
        MenuAction::OpenRecordings
    } else if id == "delete_recordings"@ {
        MenuAction::DeleteRecordings
    } else if id == "hide_window"@ {
        MenuAction::HideMain
    } else if id == "debug_stats"@ {
        MenuAction::ToggleDebugStats
    } else if id == "quit"@ {
        MenuAction::Quit
    } else {
        MenuAction::Ignore
    }
}

/// Tells what the menu item with a name does.
pub fn menu_action(id: &str) -> (r: MenuAction)
    ensures
        r == action_of(id@),
{
    if same_str(id, "open_settings") {
        MenuAction::OpenMain
    } else if same_str(id, "open_settings_window") {
        MenuAction::OpenSettings
    } else if same_str(id, "open_recordings") {
        MenuAction::OpenRecordings
    } else if same_str(id, "delete_recordings") {
        MenuAction::DeleteRecordings
    } else if same_str(id, "hide_window") {
        MenuAction::HideMain
    } else if same_str(id, "debug_stats") {
        MenuAction::ToggleDebugStats
    } else if same_str(id, "quit") {
        MenuAction::Quit
    } else {
        MenuAction::Ignore
    }
}

/// Each item of the menu does what it is named for, and no other name does anything.
pub proof fn each_item_has_its_action(id: Seq<char>)
    ensures
        action_of(id) is OpenMain <==> id == "open_settings"@,
        action_of(id) is OpenSettings <==> id == "open_settings_window"@,
        action_of(id) is OpenRecordings <==> id == "open_recordings"@,
        action_of(id) is DeleteRecordings <==> id == "delete_recordings"@,
        action_of(id) is HideMain <==> id == "hide_window"@,
        action_of(id) is ToggleDebugStats <==> id == "debug_stats"@,
        action_of(id) is Quit <==> id == "quit"@,
{
    reveal_strlit("open_settings");
    reveal_strlit("open_settings_window");
    reveal_strlit("open_recordings");
    reveal_strlit("delete_recordings");
    reveal_strlit("hide_window");
    reveal_strlit("debug_stats");
    reveal_strlit("quit");
    assert("open_settings"@.len() == 13);
    assert("open_settings_window"@.len() == 20);
    assert("open_recordings"@.len() == 15);
    assert("delete_recordings"@.len() == 17);
    assert("hide_window"@.len() == 11);
    assert("debug_stats"@.len() == 11);
    assert("quit"@.len() == 4);
    assert("hide_window"@[0] != "debug_stats"@[0]);
}

} // verus!
