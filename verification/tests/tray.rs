use omegawhisper::tray::{menu_action, MenuAction};

#[test]
fn menu_items_have_their_actions() {
    let cases = [
        ("open_settings", MenuAction::OpenMain),
        ("open_settings_window", MenuAction::OpenSettings),
        ("open_recordings", MenuAction::OpenRecordings),
        ("delete_recordings", MenuAction::DeleteRecordings),
        ("hide_window", MenuAction::HideMain),
        ("debug_stats", MenuAction::ToggleDebugStats),
        ("quit", MenuAction::Quit),
        ("Quit", MenuAction::Ignore),
        ("", MenuAction::Ignore),
    ];
    for (id, want) in cases {
        assert_eq!(menu_action(id), want, "{id}");
    }
}
