use fbii::library::{entry_action, is_supported_book_file, EntryAction, ImportOutcome, ScanSummary};
use fbii::opds::parser::url_from_origin;
use fbii::opds::{feed_key, parse_opds_feed, resolve_url, FeedCommand, OpdsEntry, OpdsFeed, OpdsLinkType};
use fbii::tui::{KeyCode, KeyInput};
use fbii::utils::AppError;

#[test]
fn test_opds_feed_parsing_and_resolution() {
    let xml = r#"<?xml version="1.0" encoding="utf-8"?>
<feed xmlns="http://www.w3.org/2005/Atom">
  <title>Project Gutenberg Test Catalog</title>
  <link rel="next" href="/ebooks/search.opds/?start_index=26"/>
  <entry>
    <title>Pride and Prejudice</title>
    <author><name>Jane Austen</name></author>
    <content type="text">Jane Austen</content>
    <link rel="http://opds-spec.org/acquisition" type="application/epub+zip" href="/ebooks/1342.epub.images"/>
  </entry>
  <entry>
    <title>Classics Sub-Catalog</title>
    <author><name>Various</name></author>
    <link rel="subsection" type="application/atom+xml;profile=opds-catalog" href="/ebooks/subject/classics.opds"/>
  </entry>
</feed>"#;

    let base_url = "https://www.gutenberg.org/ebooks/search.opds/";
    let feed = parse_opds_feed(xml, base_url).unwrap();

    assert_eq!(feed.title, "Project Gutenberg Test Catalog");
    assert_eq!(feed.next_url.unwrap(), "https://www.gutenberg.org/ebooks/search.opds/?start_index=26");
    assert_eq!(feed.entries.len(), 2);

    assert_eq!(feed.entries[0].title, "Pride and Prejudice");
    assert_eq!(feed.entries[0].author, "Jane Austen");
    assert_eq!(
        feed.entries[0].link,
        OpdsLinkType::Acquisition("https://www.gutenberg.org/ebooks/1342.epub.images".to_string())
    );

    assert_eq!(feed.entries[1].title, "Classics Sub-Catalog");
    assert_eq!(
        feed.entries[1].link,
        OpdsLinkType::Catalog("https://www.gutenberg.org/ebooks/subject/classics.opds".to_string())
    );
}

#[test]
fn test_url_resolution_helper() {
    assert_eq!(
        resolve_url("https://www.gutenberg.org/ebooks/opds/", "/ebooks/1342.epub"),
        "https://www.gutenberg.org/ebooks/1342.epub"
    );
    assert_eq!(resolve_url("https://example.com/catalog/", "sub.opds"), "https://example.com/catalog/sub.opds");
    assert_eq!(
        resolve_url("https://example.com/catalog/", "https://other.com/book.epub"),
        "https://other.com/book.epub"
    );
}

#[test]
fn test_url_resolution_edge_cases() {
    // A base that does not parse leaves an absolute path as it is.
    assert_eq!(resolve_url("not a url", "/x.epub"), "/x.epub");
    assert_eq!(resolve_url("https://example.com:8080/a/b", "/c"), "https://example.com:8080/c");
    assert_eq!(resolve_url("https://example.com/cat///", "x"), "https://example.com/cat/x");
    assert_eq!(url_from_origin(Some(("https".to_string(), "h.org".to_string())), "/p"), "https://h.org/p");
    assert_eq!(url_from_origin(None, "/p"), "/p");
}

#[test]
fn test_opds_feed_errors_and_defaults() {
    match parse_opds_feed("<notfeed/>", "https://x.org/") {
        Err(AppError::Parse(m)) => assert_eq!(m, "Root element is not <feed>"),
        _ => panic!("expected a root error"),
    }
    match parse_opds_feed("<feed>", "https://x.org/") {
        Err(AppError::Parse(m)) => assert!(m.starts_with("Failed to parse OPDS XML feed: ")),
        _ => panic!("expected a parse error"),
    }
    let feed = parse_opds_feed(
        r#"<FEED><link rel="search" href="search.xml"/><entry><title>No link</title></entry>
           <entry><title> Book </title><summary> About </summary><link href="b.fb2"/><link type="application/epub+zip" href="b.epub"/></entry></FEED>"#,
        "https://x.org/cat/",
    )
    .unwrap();
    assert_eq!(feed.title, "OPDS Catalog");
    assert_eq!(feed.url, "https://x.org/cat/");
    assert_eq!(feed.search_url, Some("https://x.org/cat/search.xml".to_string()));
    assert_eq!(feed.next_url, None);
    assert_eq!(feed.entries.len(), 1);
    assert_eq!(feed.entries[0].title, "Book");
    assert_eq!(feed.entries[0].author, "Unknown Author");
    assert_eq!(feed.entries[0].summary, "About");
    assert_eq!(feed.entries[0].link, OpdsLinkType::Acquisition("https://x.org/cat/b.epub".to_string()));
}

#[test]
fn test_supported_book_files() {
    assert!(is_supported_book_file("/x/book1.fb2"));
    assert!(is_supported_book_file("/x/book2.EPUB"));
    assert!(is_supported_book_file("/x/nested/book3.fb2.zip"));
    assert!(!is_supported_book_file("/x/notes.txt"));
    assert_eq!(entry_action("/x/nested", true), EntryAction::Descend);
    assert_eq!(entry_action("/x/book.epub", false), EntryAction::Collect);
    assert_eq!(entry_action("/x/notes.txt", false), EntryAction::Skip);
}

#[test]
fn test_scan_summary_counts() {
    let mut s = ScanSummary::default();
    assert_eq!(s.total(), 0);
    s.record(ScanSummary::outcome_of(true, false, true));
    s.record(ScanSummary::outcome_of(true, true, true));
    s.record(ScanSummary::outcome_of(false, false, false));
    s.record(ScanSummary::outcome_of(true, false, false));
    assert_eq!(s, ScanSummary { imported: 1, skipped: 1, failed: 2 });
    assert_eq!(s.total(), 4);
    assert_eq!(ScanSummary::outcome_of(true, true, false), ImportOutcome::AlreadyKnown);
}

fn nav_feed() -> OpdsFeed {
    let entry = |title: &str, link: OpdsLinkType| OpdsEntry {
        title: title.to_string(),
        author: String::new(),
        summary: String::new(),
        link,
    };
    OpdsFeed {
        title: "Root".to_string(),
        url: "http://example.com/opds".to_string(),
        next_url: None,
        search_url: None,
        entries: vec![
            entry("Fiction", OpdsLinkType::Catalog("http://example.com/fiction".to_string())),
            entry("A Book", OpdsLinkType::Acquisition("http://example.com/book.fb2".to_string())),
        ],
    }
}

#[test]
fn test_feed_keys_move_open_and_go_back() {
    let feed = nav_feed();
    let k = |code: KeyCode| KeyInput::new(code, false, false);
    assert_eq!(feed_key(&feed, 0, k(KeyCode::Char('j'))), (1, FeedCommand::Stay));
    assert_eq!(feed_key(&feed, 1, k(KeyCode::Down)), (1, FeedCommand::Stay));
    assert_eq!(feed_key(&feed, 1, k(KeyCode::Char('k'))), (0, FeedCommand::Stay));
    assert_eq!(feed_key(&feed, 0, k(KeyCode::Up)), (0, FeedCommand::Stay));
    assert_eq!(
        feed_key(&feed, 0, k(KeyCode::Enter)),
        (0, FeedCommand::OpenCatalog("http://example.com/fiction".to_string()))
    );
    assert_eq!(
        feed_key(&feed, 1, k(KeyCode::Enter)),
        (1, FeedCommand::Download("http://example.com/book.fb2".to_string()))
    );
    assert_eq!(feed_key(&feed, 1, k(KeyCode::Esc)), (1, FeedCommand::Back));
    assert_eq!(feed_key(&feed, 0, k(KeyCode::Char('q'))), (0, FeedCommand::Back));
    assert_eq!(feed_key(&feed, 0, k(KeyCode::Char('x'))), (0, FeedCommand::Stay));
}

#[test]
fn test_feed_keys_on_empty_feed() {
    let mut feed = nav_feed();
    feed.entries.clear();
    let k = |code: KeyCode| KeyInput::new(code, false, false);
    assert_eq!(feed_key(&feed, 0, k(KeyCode::Down)), (0, FeedCommand::Stay));
    assert_eq!(feed_key(&feed, 0, k(KeyCode::Enter)), (0, FeedCommand::Stay));
}
