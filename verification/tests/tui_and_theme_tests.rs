use fbii::config::{normalize_key, KeyAction, KeyMap};
use fbii::themes::Theme;
use fbii::tui::{format_key_event, KeyCode, KeyInput, KeymapDispatcher};

fn key(c: char) -> KeyInput {
    KeyInput::new(KeyCode::Char(c), false, false)
}

#[test]
fn test_theme_catalog() {
    let dracula = Theme::get_by_name("dracula", false);
    assert_eq!(dracula.name, "dracula");
    let monokai = Theme::get_by_name("monokai", false);
    assert_eq!(monokai.name, "monokai");
    let gh_dark = Theme::get_by_name("github-dark", false);
    assert_eq!(gh_dark.name, "github-dark");
    let fallback = Theme::get_by_name("unknown-theme", false);
    assert_eq!(fallback.name, "dracula");
}

#[test]
fn test_theme_names_are_case_insensitive() {
    assert_eq!(Theme::get_by_name("MONOKAI", false).name, "monokai");
    assert_eq!(Theme::get_by_name("Nord-Light", false).name, "nord-light");
    assert_eq!(Theme::get_by_name("github-light", false).name, "github-light");
    assert_eq!(Theme::get_by_name("system", false).name, "nord-dark");
    assert_eq!(Theme::get_by_name("SYSTEM", true).name, "nord-light");
    assert_eq!(Theme::system_default(true).name, "nord-light");
    assert_eq!(Theme::system_default(false).name, "nord-dark");
}

#[test]
fn test_keymap_dispatcher() {
    let keymap = KeyMap::default();
    let mut dispatcher = KeymapDispatcher::new();
    let action = dispatcher.handle_event(key('j'), &keymap);
    assert_eq!(action, Some(KeyAction::ScrollDown));
    let action1 = dispatcher.handle_event(key('g'), &keymap);
    assert_eq!(action1, None);
    let action2 = dispatcher.handle_event(key('g'), &keymap);
    assert_eq!(action2, Some(KeyAction::GotoTop));
}

#[test]
fn test_dispatcher_drops_dead_prefix_and_reads_modifiers() {
    let keymap = KeyMap::default();
    let mut dispatcher = KeymapDispatcher::new();
    assert_eq!(dispatcher.handle_event(key('g'), &keymap), None);
    // "gx" names nothing: the buffer is dropped and `j` is read afresh.
    assert_eq!(dispatcher.handle_event(key('x'), &keymap), None);
    assert_eq!(dispatcher.handle_event(key('j'), &keymap), Some(KeyAction::ScrollDown));
    let ctrl_d = KeyInput::new(KeyCode::Char('d'), true, false);
    assert_eq!(dispatcher.handle_event(ctrl_d, &keymap), Some(KeyAction::HalfPageDown));
    assert_eq!(dispatcher.handle_event(KeyInput::new(KeyCode::Enter, false, false), &keymap), Some(KeyAction::Select));
}

#[test]
fn test_format_key_event() {
    assert_eq!(format_key_event(key('j')), "j");
    assert_eq!(format_key_event(KeyInput::new(KeyCode::Char('d'), true, false)), "ctrl+d");
    assert_eq!(format_key_event(KeyInput::new(KeyCode::Char('h'), true, true)), "alt+ctrl+h");
    assert_eq!(format_key_event(KeyInput::new(KeyCode::Esc, false, false)), "Esc");
}

#[test]
fn test_formatted_keys_are_normal_and_match_normalized_bindings() {
    let events = vec![
        KeyInput::new(KeyCode::Char('h'), true, true),
        KeyInput::new(KeyCode::Char('H'), false, true),
        KeyInput::new(KeyCode::Char('d'), true, false),
        KeyInput::new(KeyCode::PageDown, true, true),
        KeyInput::new(KeyCode::Enter, false, false),
        KeyInput::new(KeyCode::Char('j'), false, false),
    ];
    for e in events {
        let name = format_key_event(e);
        assert_eq!(normalize_key(&name), name);
    }
    assert_eq!(format_key_event(KeyInput::new(KeyCode::Char('H'), false, true)), "alt+h");
    assert_eq!(format_key_event(KeyInput::new(KeyCode::PageDown, true, true)), "alt+ctrl+pagedown");

    let mut keymap = KeyMap::default();
    keymap.bindings.insert("Ctrl+Alt+x".to_string(), KeyAction::Quit);
    assert!(keymap.validate_and_normalize().is_ok());
    let mut dispatcher = KeymapDispatcher::new();
    let ctrl_alt_x = KeyInput::new(KeyCode::Char('x'), true, true);
    assert_eq!(dispatcher.handle_event(ctrl_alt_x, &keymap), Some(KeyAction::Quit));
}
