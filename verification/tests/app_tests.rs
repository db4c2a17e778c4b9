use fbii::config::{Config, KeyAction};
use fbii::formats::model::{Block, Book, Inline, Metadata};
use fbii::tui::app::{App, Effect, LibraryEntry, LibrarySortMode};
use fbii::tui::{AppMode, KeyCode, KeyInput};

fn para(s: &str) -> Block {
    Block::Paragraph(vec![Inline::Text(s.to_string())])
}

fn entry(id: &str, title: &str, author: &str) -> LibraryEntry {
    LibraryEntry {
        id: id.to_string(),
        title: title.to_string(),
        authors: author.to_string(),
        file_path: format!("/books/{}.fb2", id),
        format: "FB2".to_string(),
        progress_offset: 0,
    }
}

fn key(c: char) -> KeyInput {
    KeyInput::new(KeyCode::Char(c), false, false)
}

#[test]
fn test_app_action_handling() {
    let mut app = App::new(Config::default(), false);
    assert_eq!(app.mode, AppMode::Library);

    let mut book = Book::new("b1".to_string(), "/books/test.fb2".to_string(), Metadata::default());
    book.content = vec![para("Line 1"), para("Line 2"), para("Line 3")];

    app.load_book(book, 0);
    assert_eq!(app.mode, AppMode::Reader);
    assert_eq!(app.reader_view.scroll_offset, 0);

    app.handle_action(KeyAction::ScrollDown);
    assert_eq!(app.reader_view.scroll_offset, 1);

    app.handle_action(KeyAction::ScrollUp);
    assert_eq!(app.reader_view.scroll_offset, 0);

    app.handle_action(KeyAction::Toc);
    assert!(app.reader_view.show_toc);

    app.handle_action(KeyAction::Quit);
    assert!(!app.reader_view.show_toc);
    assert_eq!(app.mode, AppMode::Reader);

    app.handle_action(KeyAction::Quit);
    assert_eq!(app.mode, AppMode::Library);

    app.handle_action(KeyAction::Quit);
    assert!(!app.is_running);
}

#[test]
fn test_library_sort_filter_and_delete_actions() {
    let mut app = App::new(Config::default(), false);
    app.set_library(vec![entry("z1", "Zebra Tales", "Alice"), entry("a1", "Apple Stories", "Bob")]);
    assert_eq!(app.library_books.len(), 2);

    app.mode = AppMode::Library;
    app.handle_action(KeyAction::CycleSort);
    assert_eq!(app.library_view.sort_mode, LibrarySortMode::Title);
    let visible = app.visible_library_books();
    assert_eq!(visible[0].title, "Apple Stories");
    assert_eq!(visible[1].title, "Zebra Tales");

    app.library_view.filter = "zebra".to_string();
    let filtered = app.visible_library_books();
    assert_eq!(filtered.len(), 1);
    assert_eq!(filtered[0].title, "Zebra Tales");
    app.library_view.filter.clear();

    app.library_view.selected = Some(0);
    match app.handle_action(KeyAction::Delete) {
        Effect::DeleteBook { book_id } => assert_eq!(book_id, "a1"),
        other => panic!("expected a deletion, got {:?}", other),
    }
    assert_eq!(app.library_books.len(), 1);
    assert_eq!(app.library_books[0].title, "Zebra Tales");
    assert_eq!(app.status_message.as_deref(), Some("Deleted 'Apple Stories'"));
}

#[test]
fn test_toggle_simple_mode_preserves_reading_position() {
    let mut app = App::new(Config::default(), false);
    let mut book = Book::new("b1".to_string(), "/books/test.fb2".to_string(), Metadata::default());
    book.content = vec![
        para("First paragraph."),
        Block::Quote(vec![para("A quoted passage that anchors our reading position.")]),
        para("Third paragraph."),
    ];
    app.load_book(book, 0);

    let anchor_char_offset =
        app.active_layout.as_ref().unwrap().lines.iter().find(|l| l.block_index == 1).unwrap().char_start + 5;
    app.reader_view.scroll_offset = app.active_layout.as_ref().unwrap().line_at_char_offset(anchor_char_offset);

    app.handle_action(KeyAction::ToggleSimpleMode);

    let new_line = &app.active_layout.as_ref().unwrap().lines[app.reader_view.scroll_offset];
    assert_eq!(new_line.block_index, 1);
}

#[test]
fn test_cycle_sort_goes_round() {
    let mut app = App::new(Config::default(), false);
    assert_eq!(app.library_view.sort_mode, LibrarySortMode::Recent);
    app.handle_action(KeyAction::CycleSort);
    assert_eq!(app.library_view.sort_mode, LibrarySortMode::Title);
    app.handle_action(KeyAction::CycleSort);
    assert_eq!(app.library_view.sort_mode, LibrarySortMode::Author);
    app.handle_action(KeyAction::CycleSort);
    assert_eq!(app.library_view.sort_mode, LibrarySortMode::Recent);
}

#[test]
fn test_sort_by_author_and_filter_by_author() {
    let mut app = App::new(Config::default(), false);
    app.set_library(vec![entry("1", "B", "Zed"), entry("2", "A", "Amy"), entry("3", "C", "Mo")]);
    app.library_view.sort_mode = LibrarySortMode::Author;
    let v = app.visible_library_books();
    let ids: Vec<&str> = v.iter().map(|e| e.id.as_str()).collect();
    assert_eq!(ids, vec!["2", "3", "1"]);
    app.library_view.filter = "AMY".to_string();
    let v = app.visible_library_books();
    assert_eq!(v.len(), 1);
    assert_eq!(v[0].id, "2");
    app.library_view.sort_mode = LibrarySortMode::Recent;
    app.library_view.filter.clear();
    let ids: Vec<String> = app.visible_library_books().iter().map(|e| e.id.clone()).collect();
    assert_eq!(ids, vec!["1", "2", "3"]);
}

#[test]
fn test_select_in_library_opens_selected_book() {
    let mut app = App::new(Config::default(), false);
    app.set_library(vec![entry("z1", "Zebra", "A"), entry("a1", "Apple", "B")]);
    app.library_view.sort_mode = LibrarySortMode::Title;
    app.library_view.selected = Some(1);
    match app.handle_action(KeyAction::Select) {
        Effect::OpenLibraryBook { path } => assert_eq!(path, "/books/z1.fb2"),
        other => panic!("expected an open, got {:?}", other),
    }
}

#[test]
fn test_view_image_without_image_reports() {
    let mut app = App::new(Config::default(), false);
    let mut book = Book::new("b1".to_string(), "/books/test.fb2".to_string(), Metadata::default());
    book.content = vec![para("Just text.")];
    app.load_book(book, 0);
    match app.handle_action(KeyAction::ViewImage) {
        Effect::Nothing => {},
        other => panic!("expected nothing, got {:?}", other),
    }
    assert_eq!(app.status_message.as_deref(), Some("No image on the current line."));
}

#[test]
fn test_toggles_change_settings() {
    let mut app = App::new(Config::default(), false);
    assert!(!app.config.typography.justified);
    app.handle_action(KeyAction::ToggleJustify);
    assert!(app.config.typography.justified);
    assert!(!app.config.display.widescreen);
    app.handle_action(KeyAction::ToggleWidescreen);
    assert!(app.config.display.widescreen);
    app.handle_action(KeyAction::ToggleWidescreen);
    assert!(!app.config.display.widescreen);
}

#[test]
fn test_scrolling_is_bounded_by_the_layout() {
    let mut app = App::new(Config::default(), false);
    let mut book = Book::new("b1".to_string(), "/books/test.fb2".to_string(), Metadata::default());
    book.content = vec![para("One"), para("Two")];
    app.load_book(book, 0);
    let n = app.active_layout.as_ref().unwrap().lines.len();
    for _ in 0..(n + 5) {
        app.handle_action(KeyAction::ScrollDown);
    }
    assert_eq!(app.reader_view.scroll_offset, n - 1);
    app.handle_action(KeyAction::GotoTop);
    assert_eq!(app.reader_view.scroll_offset, 0);
    app.handle_action(KeyAction::ScrollUp);
    assert_eq!(app.reader_view.scroll_offset, 0);
    app.handle_action(KeyAction::GotoBottom);
    assert_eq!(app.reader_view.scroll_offset, n - 1);
}

#[test]
fn test_search_input_runs_search_and_moves_to_match() {
    let mut app = App::new(Config::default(), false);
    let mut book = Book::new("b1".to_string(), "/books/test.fb2".to_string(), Metadata::default());
    book.content = vec![para("alpha"), para("beta"), para("gamma target")];
    app.load_book(book, 0);
    app.handle_key(key('/'));
    assert_eq!(app.mode, AppMode::SearchInput);
    for c in "target".chars() {
        app.handle_key(key(c));
    }
    app.handle_key(KeyInput::new(KeyCode::Enter, false, false));
    assert_eq!(app.mode, AppMode::Reader);
    assert_eq!(app.search_matches.len(), 1);
    let line = &app.active_layout.as_ref().unwrap().lines[app.reader_view.scroll_offset];
    assert_eq!(line.block_index, 2);
}

#[test]
fn test_commands() {
    let mut app = App::new(Config::default(), false);
    match app.run_command("theme monokai") {
        Effect::SaveConfig | Effect::Nothing => {},
        other => panic!("unexpected effect {:?}", other),
    }
    assert_eq!(app.theme.name, "monokai");
    match app.run_command("opds") {
        Effect::OpenOpds { url } => assert_eq!(url, "https://www.gutenberg.org/ebooks/search.opds/"),
        other => panic!("unexpected effect {:?}", other),
    }
    app.run_command("q");
    assert!(!app.is_running);
}

#[test]
fn test_opds_add_then_open() {
    let mut app = App::new(Config::default(), false);
    app.run_command("opds add mycatalog https://mycatalog.org/feed.opds");
    assert_eq!(app.config.opds_catalogs.get("mycatalog"), Some(&"https://mycatalog.org/feed.opds".to_string()));
    assert!(app.config.opds_catalogs.contains_key("gutenberg"));
    match app.run_command("opds open mycatalog") {
        Effect::OpenOpds { url } => assert_eq!(url, "https://mycatalog.org/feed.opds"),
        other => panic!("unexpected effect {:?}", other),
    }
}

#[test]
fn test_load_book_restores_saved_position() {
    let mut app = App::new(Config::default(), false);
    let mut book = Book::new("b1".to_string(), "/books/test.fb2".to_string(), Metadata::default());
    book.content = vec![para("One"), para("Two"), para("Three"), para("Four")];
    app.load_book(book, 2);
    assert_eq!(app.reader_view.scroll_offset, 2);
}

#[test]
fn test_colon_q_goes_back_then_quits_from_library() {
    let mut app = App::new(Config::default(), false);
    let mut book = Book::new("b1".to_string(), "/books/test.fb2".to_string(), Metadata::default());
    book.content = vec![para("Line 1"), para("Line 2"), para("Line 3")];
    app.load_book(book, 0);
    assert_eq!(app.mode, AppMode::Reader);

    app.handle_key(key(':'));
    assert_eq!(app.mode, AppMode::CommandInput);
    app.handle_key(key('q'));
    app.handle_key(KeyInput::new(KeyCode::Enter, false, false));
    assert_eq!(app.mode, AppMode::Library);
    assert!(app.is_running);

    app.handle_key(key(':'));
    app.handle_key(key('q'));
    app.handle_key(KeyInput::new(KeyCode::Enter, false, false));
    assert!(!app.is_running);
    assert_eq!(app.mode, AppMode::Library);
}

#[test]
fn test_escape_from_command_line_returns_to_the_open_book() {
    let mut app = App::new(Config::default(), false);
    let mut book = Book::new("b1".to_string(), "/books/test.fb2".to_string(), Metadata::default());
    book.content = vec![para("Line 1")];
    app.load_book(book, 0);
    app.handle_action(KeyAction::Quit);
    assert_eq!(app.mode, AppMode::Library);
    app.handle_key(key(':'));
    app.handle_key(KeyInput::new(KeyCode::Esc, false, false));
    assert_eq!(app.mode, AppMode::Reader);
}

#[test]
fn test_escape_from_command_line_without_book_returns_to_library() {
    let mut app = App::new(Config::default(), false);
    app.handle_key(key(':'));
    assert_eq!(app.mode, AppMode::CommandInput);
    app.handle_key(key('x'));
    app.handle_key(KeyInput::new(KeyCode::Esc, false, false));
    assert_eq!(app.mode, AppMode::Library);
    assert_eq!(app.input_buffer, "");
}

#[test]
fn test_ctrl_v_in_input_line_asks_for_the_clipboard_and_pastes() {
    let mut app = App::new(Config::default(), false);
    app.handle_key(key(':'));
    app.handle_key(key('o'));
    let e = app.handle_key(KeyInput::new(KeyCode::Char('v'), true, false));
    assert!(matches!(e, Effect::ReadClipboard));
    assert_eq!(app.input_buffer, "o");
    let e = app.handle_key(KeyInput::new(KeyCode::Char('V'), true, false));
    assert!(matches!(e, Effect::ReadClipboard));
    app.paste("pen /tmp/a\r\nb.fb2");
    assert_eq!(app.input_buffer, "open /tmp/a b.fb2");
    assert_eq!(app.mode, AppMode::CommandInput);
}

#[test]
fn test_paste_outside_input_lines_changes_nothing() {
    let mut app = App::new(Config::default(), false);
    app.paste("text");
    assert_eq!(app.input_buffer, "");
    assert_eq!(app.mode, AppMode::Library);
}
