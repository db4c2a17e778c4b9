use fbii::config::{normalize_key, Config, KeyAction, KeyMap, TypographyConfig};
use fbii::formats::model::{Block, Book, Inline, ListItem, Metadata, PoemStanza, TableCell, TableRow};
use fbii::utils::AppError;

#[test]
fn test_default_config_loading() {
    let config = Config::default();
    assert_eq!(config.theme, "dracula");
    assert_eq!(config.typography.measure, 80);
    assert_eq!(config.typography.paragraph_indent, 2);
    assert!(!config.display.simplified_mode);
}

#[test]
fn test_config_clamping_and_normalization() {
    let mut config = Config::default();
    config.typography.measure = 10; // Below min 30
    config.clamp_and_validate().unwrap();
    assert_eq!(config.typography.measure, 30);

    config.typography.measure = 500; // Above max 200
    config.clamp_and_validate().unwrap();
    assert_eq!(config.typography.measure, 200);
}

#[test]
fn test_key_normalization() {
    assert_eq!(normalize_key("CTRL+d"), "ctrl+d");
    assert_eq!(normalize_key("Ctrl+Alt+h"), "alt+ctrl+h");
    assert_eq!(normalize_key("j"), "j");
    assert_eq!(normalize_key("Enter"), "Enter");
    assert_eq!(normalize_key("Esc"), "Esc");
}

#[test]
fn test_keybinding_conflict_detection() {
    let mut keymap = KeyMap::default();
    keymap.bindings.insert("j".to_string(), KeyAction::ScrollDown);
    keymap.bindings.insert("J".to_string(), KeyAction::ScrollUp);
    keymap.bindings.insert("j".to_string(), KeyAction::Quit);

    let mut conflict_keymap = KeyMap::default();
    conflict_keymap.bindings.clear();
    conflict_keymap.bindings.insert("Ctrl+d".to_string(), KeyAction::HalfPageDown);
    conflict_keymap.bindings.insert("ctrl+d".to_string(), KeyAction::PageDown);

    let conflict_res = conflict_keymap.validate_and_normalize();
    assert!(conflict_res.is_err());
}

#[test]
fn test_document_model_plain_text() {
    let inline = Inline::Bold(vec![
        Inline::Text("Hello ".to_string()),
        Inline::Italic(vec![Inline::Text("World".to_string())]),
    ]);
    assert_eq!(inline.plain_text(), "Hello World");

    let list = Block::List {
        ordered: false,
        items: vec![
            ListItem { inlines: vec![Inline::Text("Item 1".to_string())] },
            ListItem { inlines: vec![Inline::Text("Item 2".to_string())] },
        ],
    };
    assert_eq!(list.plain_text(), "Item 1\nItem 2");
}

#[test]
fn test_block_plain_text_all_variants() {
    let header = Block::Heading { level: 1, inlines: vec![Inline::Text("Chapter One".to_string())] };
    assert_eq!(header.plain_text(), "Chapter One");

    let quote = Block::Quote(vec![Block::Paragraph(vec![Inline::Text("To be or not to be".to_string())])]);
    assert_eq!(quote.plain_text(), "To be or not to be");

    let poem = Block::Poem {
        stanzas: vec![PoemStanza { lines: vec![vec![Inline::Text("Roses are red".to_string())]] }],
    };
    assert_eq!(poem.plain_text(), "Roses are red");

    let table = Block::Table {
        rows: vec![TableRow {
            cells: vec![TableCell { inlines: vec![Inline::Text("Cell 1".to_string())], is_header: false }],
        }],
    };
    assert_eq!(table.plain_text(), "Cell 1");

    let empty = Block::Empty;
    assert_eq!(empty.plain_text(), "");
}

#[test]
fn test_app_error_formatting() {
    let err_io = AppError::Io("file not found".to_string());
    assert!(err_io.to_string().contains("file not found"));

    let err_parse = AppError::Parse("Invalid XML".to_string());
    assert!(err_parse.to_string().contains("Invalid XML"));

    let err_key = AppError::KeybindingConflict("j conflict".to_string());
    assert!(err_key.to_string().contains("j conflict"));
}

#[test]
fn test_readme_keybindings_mapping() {
    let keymap = KeyMap::default();
    let bindings = &keymap.bindings;

    assert_eq!(bindings.get("j"), Some(&KeyAction::ScrollDown));
    assert_eq!(bindings.get("Down"), Some(&KeyAction::ScrollDown));
    assert_eq!(bindings.get("k"), Some(&KeyAction::ScrollUp));
    assert_eq!(bindings.get("Up"), Some(&KeyAction::ScrollUp));
    assert_eq!(bindings.get("ctrl+f"), Some(&KeyAction::PageDown));
    assert_eq!(bindings.get("ctrl+b"), Some(&KeyAction::PageUp));
    assert_eq!(bindings.get("ctrl+d"), Some(&KeyAction::HalfPageDown));
    assert_eq!(bindings.get("ctrl+u"), Some(&KeyAction::HalfPageUp));
    assert_eq!(bindings.get("gg"), Some(&KeyAction::GotoTop));
    assert_eq!(bindings.get("G"), Some(&KeyAction::GotoBottom));
    assert_eq!(bindings.get("/"), Some(&KeyAction::Search));
    assert_eq!(bindings.get("n"), Some(&KeyAction::NextMatch));
    assert_eq!(bindings.get("N"), Some(&KeyAction::PrevMatch));
    assert_eq!(bindings.get("t"), Some(&KeyAction::Toc));
    assert_eq!(bindings.get("b"), Some(&KeyAction::AddBookmark));
    assert_eq!(bindings.get("B"), Some(&KeyAction::ListBookmarks));
    assert_eq!(bindings.get("d"), Some(&KeyAction::Delete));
    assert_eq!(bindings.get("r"), Some(&KeyAction::CycleSort));
    assert_eq!(bindings.get("v"), Some(&KeyAction::ViewImage));
    assert_eq!(bindings.get("i"), Some(&KeyAction::Info));
    assert_eq!(bindings.get("S"), Some(&KeyAction::ToggleSimpleMode));
    assert_eq!(bindings.get("C"), Some(&KeyAction::ToggleCss));
    assert_eq!(bindings.get("?"), Some(&KeyAction::Help));
    assert_eq!(bindings.get("q"), Some(&KeyAction::Quit));
    assert_eq!(bindings.get(":"), Some(&KeyAction::Command));
}

#[test]
fn test_default_keymap_validates_and_keeps_bindings() {
    let mut keymap = KeyMap::default();
    let before = keymap.bindings.len();
    assert!(keymap.validate_and_normalize().is_ok());
    assert_eq!(keymap.bindings.len(), before);
    assert_eq!(keymap.bindings.get("ctrl+d"), Some(&KeyAction::HalfPageDown));
    assert_eq!(keymap.bindings.get("J"), Some(&KeyAction::ToggleJustify));
}

#[test]
fn test_conflict_message_names_both_actions_and_clears_bindings() {
    let mut keymap = KeyMap::default();
    keymap.bindings.clear();
    keymap.bindings.insert("Ctrl+d".to_string(), KeyAction::HalfPageDown);
    keymap.bindings.insert("ctrl+d".to_string(), KeyAction::PageDown);
    match keymap.validate_and_normalize() {
        Err(AppError::KeybindingConflict(m)) => {
            assert_eq!(m, "Key binding conflict for 'ctrl+d': bound to 'half_page_down' and 'page_down'");
        },
        other => panic!("expected a conflict, got {:?}", other),
    }
    assert!(keymap.bindings.is_empty());
}

#[test]
fn test_same_action_under_two_spellings_is_no_conflict() {
    let mut keymap = KeyMap::default();
    keymap.bindings.clear();
    keymap.bindings.insert("Ctrl+Alt+x".to_string(), KeyAction::Quit);
    keymap.bindings.insert("alt+ctrl+x".to_string(), KeyAction::Quit);
    assert!(keymap.validate_and_normalize().is_ok());
    assert_eq!(keymap.bindings.get("alt+ctrl+x"), Some(&KeyAction::Quit));
    assert_eq!(keymap.bindings.len(), 1);
}

#[test]
fn test_clamping_keeps_measures_in_range() {
    let mut config = Config::default();
    config.typography.measure = 30;
    config.clamp_and_validate().unwrap();
    assert_eq!(config.typography.measure, 30);
    config.typography.measure = 200;
    config.clamp_and_validate().unwrap();
    assert_eq!(config.typography.measure, 200);
    config.typography.measure = 29;
    config.clamp_and_validate().unwrap();
    assert_eq!(config.typography.measure, 30);
    config.typography.measure = 201;
    config.clamp_and_validate().unwrap();
    assert_eq!(config.typography.measure, 200);
}

#[test]
fn test_default_config_has_gutenberg_catalog_and_defaults() {
    let config = Config::default();
    assert_eq!(
        config.opds_catalogs.get("gutenberg"),
        Some(&"https://www.gutenberg.org/ebooks/search.opds/".to_string())
    );
    let t = TypographyConfig::default();
    assert!(!t.justified);
    assert!(config.display.respect_epub_css);
    assert!(!config.display.widescreen);
}

#[test]
fn test_book_new_is_empty() {
    let book = Book::new("b1".to_string(), "/books/x.fb2".to_string(), Metadata::default());
    assert_eq!(book.id, "b1");
    assert_eq!(book.file_path, "/books/x.fb2");
    assert!(book.content.is_empty());
    assert!(book.toc.is_empty());
    assert!(book.resources.is_empty());
    assert_eq!(book.metadata.title, "Unknown Title");
    assert_eq!(book.metadata.authors, vec!["Unknown Author".to_string()]);
}

#[test]
fn test_hidden_and_image_blocks_plain_text() {
    let hidden = Block::Hidden(vec![Block::Paragraph(vec![Inline::Text("secret".to_string())])]);
    assert_eq!(hidden.plain_text(), "secret");
    let link = Inline::Link { target: "#n1".to_string(), inlines: vec![Inline::Text("note".to_string())] };
    assert_eq!(link.plain_text(), "note");
    assert_eq!(Inline::LineBreak.plain_text(), "\n");
}

#[test]
fn test_modifier_order_and_case_do_not_matter() {
    assert_eq!(normalize_key("Ctrl+Alt+h"), normalize_key("ALT+ctrl+h"));
    assert_eq!(normalize_key("shift+Ctrl+X"), "ctrl+shift+X");
    assert_eq!(normalize_key("Ctrl+Shift+X"), normalize_key("SHIFT+CTRL+X"));
}
