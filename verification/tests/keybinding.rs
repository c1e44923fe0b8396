use omegawhisper::keybinding::{get_keybinding, shortcut_value};

#[test]
fn a_shortcut_is_found() {
    let dump = "[org/gnome/a]\nbinding='<Super>x'\nname='Other'\n\n[org/gnome/b]\nbinding='<Super>m'\ncommand='dbus-send dev.omegawhisper'\n";
    assert_eq!(get_keybinding(dump), Some("<Super>m".to_string()));
}

#[test]
fn names_are_found_in_any_case_and_in_the_path() {
    assert_eq!(
        get_keybinding("[keys/OmegaWhisper]\n  BINDING = \"F9\" \n"),
        Some("F9".to_string())
    );
    assert_eq!(
        get_keybinding("[k]\ncommand=HYPERWHISPER --toggle\nbinding=F8"),
        Some("F8".to_string())
    );
    assert_eq!(get_keybinding("[k]\nx=togglerecording\nbinding='F7'"), Some("F7".to_string()));
}

#[test]
fn shortcuts_that_are_switched_off_are_passed_over() {
    let dump = "[omegawhisper]\nbinding='disabled'\nbinding=''\nbinding=[]\nbinding='\"F5\"'\n";
    assert_eq!(get_keybinding(dump), Some("F5".to_string()));
    assert_eq!(get_keybinding("[omegawhisper]\nbinding='disabled'\n"), None);
}

#[test]
fn other_sections_are_passed_over() {
    assert_eq!(get_keybinding(""), None);
    assert_eq!(get_keybinding("omegawhisper\nbinding='F1'\n"), None);
    assert_eq!(get_keybinding("[]\nx=omegawhisper\nbinding='F1'\n"), None);
    assert_eq!(get_keybinding("[a]\nbinding='F1'\n[omegawhisper]\nkey='F2'\n"), None);
}

#[test]
fn a_binding_is_read_without_its_quotes() {
    let chars = |s: &str| s.chars().collect::<Vec<char>>();
    let value = |key: &str, value: &str| shortcut_value(&chars(key), &chars(value));
    assert_eq!(value("binding", "'<Super>m'"), Some("<Super>m".to_string()));
    assert_eq!(value("binding", "\"F3\""), Some("F3".to_string()));
    assert_eq!(value("binding", "''"), None);
    assert_eq!(value("binding", "[]"), None);
    assert_eq!(value("binding", "'disabled'"), None);
    assert_eq!(value("name", "'F3'"), None);
}
