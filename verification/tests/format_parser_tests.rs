use fbii::formats::encoding::decode_bytes;
use fbii::formats::model::{Block, BookFormat, Inline};
use fbii::formats::uri::{
    book_id_for_path, download_extension, format_from_path, is_remote, local_path_from_uri, percent_encoding_decode,
};
use fbii::formats::{parse_book_bytes, parse_epub_bytes, parse_fb2_bytes, parse_fb2_zip_bytes};
use fbii::utils::{sha1_hex, AppError};
use std::io::Write;
use zip::write::SimpleFileOptions;

fn zip_of(members: &[(&str, &str)]) -> Vec<u8> {
    let mut zip = zip::ZipWriter::new(std::io::Cursor::new(Vec::new()));
    let options = SimpleFileOptions::default();
    for (name, content) in members {
        zip.start_file(*name, options).unwrap();
        zip.write_all(content.as_bytes()).unwrap();
    }
    zip.finish().unwrap().into_inner()
}

const CONTAINER: &str = r##"<?xml version="1.0"?>
<container version="1.0" xmlns="urn:oasis:names:tc:opendocument:xmlns:container">
  <rootfiles>
    <rootfile full-path="OEBPS/content.opf" media-type="application/oebps-package+xml"/>
  </rootfiles>
</container>"##;

fn sample_epub() -> Vec<u8> {
    let opf = r##"<?xml version="1.0" encoding="utf-8"?>
<package xmlns="http://www.idpf.org/2007/opf" version="2.0">
  <metadata xmlns:dc="http://purl.org/dc/elements/1.1/">
    <dc:title>EPUB Test Book</dc:title>
    <dc:creator>Jane Doe</dc:creator>
  </metadata>
  <manifest>
    <item id="ncx" href="toc.ncx" media-type="application/x-dtbncx+xml"/>
    <item id="ch1" href="ch1.xhtml" media-type="application/xhtml+xml"/>
  </manifest>
  <spine toc="ncx">
    <itemref idref="ch1"/>
  </spine>
</package>"##;
    let ncx = r##"<?xml version="1.0"?>
<ncx xmlns="http://www.daisy.org/z3986/2005/ncx/" version="2005-1">
  <navMap>
    <navPoint id="np1">
      <navLabel><text>Chapter 1</text></navLabel>
      <content src="ch1.xhtml"/>
    </navPoint>
  </navMap>
</ncx>"##;
    let ch1 = r##"<?xml version="1.0" encoding="utf-8"?>
<!DOCTYPE html>
<html xmlns="http://www.w3.org/1999/xhtml">
  <head><title>Chapter 1</title></head>
  <body>
    <h1>Chapter 1 Header</h1>
    <p>Hello EPUB <em>world</em>!</p>
  </body>
</html>"##;
    zip_of(&[
        ("mimetype", "application/epub+zip"),
        ("META-INF/container.xml", CONTAINER),
        ("OEBPS/content.opf", opf),
        ("OEBPS/toc.ncx", ncx),
        ("OEBPS/ch1.xhtml", ch1),
    ])
}

#[test]
fn test_utf8_bom() {
    let bytes = b"\xef\xbb\xbfHello world";
    assert_eq!(decode_bytes(bytes).unwrap(), "Hello world");
}

#[test]
fn test_xml_encoding_declaration() {
    let (win1251_bytes, _, _) =
        encoding_rs::WINDOWS_1251.encode("<?xml version=\"1.0\" encoding=\"windows-1251\"?><book>Привет</book>");
    let decoded = decode_bytes(&win1251_bytes).unwrap();
    assert!(decoded.contains("Привет"));
}

#[test]
fn test_fb2_parser_xml_decoding_and_structure() {
    let fb2_xml = r##"<?xml version="1.0" encoding="utf-8"?>
<FictionBook xmlns="http://www.gribuser.ru/xml/fictionbook/2.0" xmlns:l="http://www.w3.org/1999/xlink">
  <description>
    <title-info>
      <genre>sci-fi</genre>
      <author><first-name>Arthur</first-name><last-name>Clarke</last-name></author>
      <book-title>Rendezvous with Rama</book-title>
      <sequence name="Rama" number="1"/>
      <annotation><p>A space classic.</p></annotation>
      <coverpage><image l:href="#cover.jpg"/></coverpage>
    </title-info>
  </description>
  <body>
    <title><p>Rendezvous with Rama</p></title>
    <section>
      <title><p>Chapter 1: Spaceguard</p></title>
      <p>Sooner or later it was <strong>bound</strong> to happen.</p>
      <cite><p>Wisdom quote</p></cite>
      <poem>
        <stanza>
          <v>Line 1 of poem</v>
          <v>Line 2 of poem</v>
        </stanza>
      </poem>
      <table>
        <tr><th>Header</th></tr>
        <tr><td>Data cell</td></tr>
      </table>
    </section>
  </body>
  <binary id="cover.jpg" content-type="image/jpeg">aGVsbG8gd29ybGQ=</binary>
</FictionBook>
"##;

    let book = parse_fb2_bytes(fb2_xml.as_bytes(), "test.fb2").unwrap();
    assert_eq!(book.metadata.title, "Rendezvous with Rama");
    assert_eq!(book.metadata.authors, vec!["Arthur Clarke"]);
    assert_eq!(book.metadata.series_name, Some("Rama".to_string()));
    assert_eq!(book.metadata.series_index, Some(1));
    assert_eq!(book.metadata.genres, vec!["sci-fi"]);
    assert_eq!(book.metadata.cover_image_key, Some("cover.jpg".to_string()));
    assert_eq!(book.resources.get("cover.jpg").unwrap(), b"hello world");

    assert_eq!(book.toc.len(), 2);
    assert_eq!(book.toc[0].title, "Rendezvous with Rama");
    assert_eq!(book.toc[1].title, "Chapter 1: Spaceguard");

    assert!(book.content.len() >= 5);
    match &book.content[2] {
        Block::Paragraph(inlines) => {
            assert_eq!(inlines[0].plain_text(), "Sooner or later it was ");
            assert_eq!(inlines[1], Inline::Bold(vec![Inline::Text("bound".to_string())]));
        },
        _ => panic!("Expected paragraph at block 2"),
    }
}

#[test]
fn test_fb2_zip_parser() {
    let fb2_xml = r##"<?xml version="1.0" encoding="utf-8"?>
<FictionBook>
  <description>
    <title-info><book-title>Zipped Book</book-title></title-info>
  </description>
  <body><section><p>Test zipped content</p></section></body>
</FictionBook>"##;
    let bytes = zip_of(&[("book.fb2", fb2_xml)]);

    let book = parse_book_bytes(&bytes, "/tmp/book.fb2.zip").unwrap();
    assert_eq!(book.metadata.title, "Zipped Book");
    assert_eq!(book.metadata.format, BookFormat::Fb2Zip);
    assert_eq!(book.content[0].plain_text(), "Test zipped content");
}

#[test]
fn test_epub_parser() {
    let bytes = sample_epub();
    let book = parse_book_bytes(&bytes, "/tmp/test.epub").unwrap();
    assert_eq!(book.metadata.title, "EPUB Test Book");
    assert_eq!(book.metadata.authors, vec!["Jane Doe"]);
    assert_eq!(book.metadata.format, BookFormat::Epub);
    assert_eq!(book.toc[0].title, "Chapter 1");
    assert_eq!(book.content[0].plain_text(), "Chapter 1 Header");
    assert_eq!(book.content[1].plain_text(), "Hello EPUB world!");
}

#[test]
fn test_epub_css_display_none_parsing_and_toggle() {
    let opf = "<?xml version=\"1.0\" encoding=\"utf-8\"?>
        <package version=\"3.0\" unique-identifier=\"BookId\" xmlns=\"http://www.idpf.org/2007/opf\">
          <metadata xmlns:dc=\"http://purl.org/dc/elements/1.1/\">
            <dc:title>CSS Hidden Test</dc:title>
          </metadata>
          <manifest>
            <item id=\"ch1\" href=\"ch1.xhtml\" media-type=\"application/xhtml+xml\"/>
          </manifest>
          <spine>
            <itemref idref=\"ch1\"/>
          </spine>
        </package>";
    let ch1 = "<?xml version=\"1.0\" encoding=\"utf-8\"?>
        <html xmlns=\"http://www.w3.org/1999/xhtml\">
          <body>
            <p>Visible content before.</p>
            <p style=\"display: none;\">Secret hidden content.</p>
            <p>Visible content after.</p>
          </body>
        </html>";
    let bytes = zip_of(&[
        ("mimetype", "application/epub+zip"),
        ("META-INF/container.xml", CONTAINER),
        ("OEBPS/content.opf", opf),
        ("OEBPS/ch1.xhtml", ch1),
    ]);

    let book = parse_epub_bytes(&bytes, "/tmp/hidden_test.epub").unwrap();
    let has_hidden_block = book.content.iter().any(|b| matches!(b, Block::Hidden(_)));
    assert!(has_hidden_block, "EPUB parser should convert display:none elements to Block::Hidden");

    let config = fbii::config::TypographyConfig::default();
    let layout_hidden = fbii::renderer::BookLayout::build_with_css(&book, &config, false, true);
    let full_text_hidden: String =
        layout_hidden.lines.iter().flat_map(|l| l.spans.iter()).map(|s| s.text.as_str()).collect();
    assert!(!full_text_hidden.contains("Secret hidden content"));
    assert!(full_text_hidden.contains("Visible content before"));

    let layout_revealed = fbii::renderer::BookLayout::build_with_css(&book, &config, false, false);
    let full_text_revealed: String =
        layout_revealed.lines.iter().flat_map(|l| l.spans.iter()).map(|s| s.text.as_str()).collect();
    assert!(full_text_revealed.contains("Secret hidden content"));
}

#[test]
fn test_book_identity_is_stable_and_path_derived() {
    let fb2 = "<FictionBook><description><title-info><book-title>A</book-title></title-info></description>\
               <body><section><p>Content A</p></section></body></FictionBook>";
    let edited = "<FictionBook><description><title-info><book-title>A</book-title></title-info></description>\
               <body><section><p>Edited content</p></section></body></FictionBook>";
    let a = parse_book_bytes(fb2.as_bytes(), "/tmp/dir_a/book.fb2").unwrap();
    let b = parse_book_bytes(fb2.as_bytes(), "/tmp/dir_b/book.fb2").unwrap();
    assert_ne!(a.id, b.id);
    let a2 = parse_book_bytes(edited.as_bytes(), "/tmp/dir_a/book.fb2").unwrap();
    assert_eq!(a.id, a2.id);
    assert_eq!(a.id, book_id_for_path("/tmp/dir_a/book.fb2"));
    assert_eq!(a.id, sha1_hex("/tmp/dir_a/book.fb2".as_bytes()));
}

#[test]
fn test_percent_decoded_non_ascii_path_is_not_mangled() {
    let file_name = "книга.fb2";
    let encoded: String = file_name.as_bytes().iter().map(|b| format!("%{:02X}", b)).collect();
    let uri = format!("file:///tmp/books/{}", encoded);
    assert_eq!(local_path_from_uri(&uri), "/tmp/books/книга.fb2");
    assert_eq!(percent_encoding_decode("a%20b"), "a b");
}

#[test]
fn test_sha1_hex_known_value() {
    assert_eq!(sha1_hex(b"abc"), "a9993e364706816aba3e25717850c26c9cd0d89d");
    assert_ne!(book_id_for_path("/a/book.epub"), "/a/book.epub");
}

#[test]
fn test_uri_helpers() {
    assert!(is_remote("  https://example.com/b.epub "));
    assert!(!is_remote("file:///tmp/b.epub"));
    assert_eq!(download_extension("https://x.org/Book.FB2.zip?x=1"), ".fb2.zip");
    assert_eq!(download_extension("https://x.org/book.epub"), ".epub");
    assert_eq!(download_extension("https://x.org/book"), ".tmp");
    assert_eq!(local_path_from_uri("file://localhost/tmp/a.fb2"), "/tmp/a.fb2");
    assert_eq!(local_path_from_uri("file:/tmp/a.fb2"), "/tmp/a.fb2");
    assert_eq!(format_from_path("/x/A.EPUB"), Some(BookFormat::Epub));
    assert_eq!(format_from_path("/x/a.fb2.zip"), Some(BookFormat::Fb2Zip));
    assert_eq!(format_from_path("/x/a.txt"), None);
}

#[test]
fn test_unknown_extension_is_sniffed() {
    let epub = sample_epub();
    let book = parse_book_bytes(&epub, "/tmp/download.tmp").unwrap();
    assert_eq!(book.metadata.format, BookFormat::Epub);

    let fb2 = "<FictionBook><body><section><p>Hello</p></section></body></FictionBook>";
    let book = parse_book_bytes(fb2.as_bytes(), "/tmp/download.tmp").unwrap();
    assert_eq!(book.metadata.format, BookFormat::Fb2);
    assert_eq!(book.metadata.title, "Unknown Title");

    match parse_book_bytes(b"plain text, not a book", "/tmp/notes.txt") {
        Err(AppError::Parse(m)) => {
            assert_eq!(m, "Unsupported or unrecognized e-book format for file: /tmp/notes.txt")
        },
        other => panic!("expected an unsupported-format error, got {:?}", other.map(|b| b.id)),
    }
}

#[test]
fn test_epub_error_messages() {
    match parse_epub_bytes(b"not a zip", "/tmp/x.epub") {
        Err(AppError::Parse(m)) => assert!(m.starts_with("Failed to open EPUB archive: ")),
        _ => panic!("expected an archive error"),
    }
    let no_container = zip_of(&[("mimetype", "application/epub+zip")]);
    match parse_epub_bytes(&no_container, "/tmp/x.epub") {
        Err(AppError::Parse(m)) => assert_eq!(m, "File 'META-INF/container.xml' not found in zip archive"),
        _ => panic!("expected a missing-container error"),
    }
    let no_rootfile = zip_of(&[("META-INF/container.xml", "<container><rootfiles/></container>")]);
    match parse_epub_bytes(&no_rootfile, "/tmp/x.epub") {
        Err(AppError::Parse(m)) => assert_eq!(m, "Could not find full-path in container.xml"),
        _ => panic!("expected a missing-rootfile error"),
    }
    let no_opf = zip_of(&[("META-INF/container.xml", CONTAINER)]);
    match parse_epub_bytes(&no_opf, "/tmp/x.epub") {
        Err(AppError::Parse(m)) => assert_eq!(m, "File 'OEBPS/content.opf' not found in zip archive"),
        _ => panic!("expected a missing-package error"),
    }
    let bad_opf = zip_of(&[("META-INF/container.xml", CONTAINER), ("OEBPS/content.opf", "<package><oops></package>")]);
    match parse_epub_bytes(&bad_opf, "/tmp/x.epub") {
        Err(AppError::Parse(m)) => assert!(m.starts_with("Failed to parse OPF XML: ")),
        _ => panic!("expected a package parse error"),
    }
}

#[test]
fn test_epub_cover_image_and_resources() {
    let opf = r##"<package><metadata><meta name="cover" content="img"/></metadata>
      <manifest>
        <item id="img" href="images/c.png" media-type="image/png"/>
        <item id="ch" href="c.xhtml" media-type="application/xhtml+xml"/>
      </manifest>
      <spine><itemref idref="ch"/></spine></package>"##;
    let bytes = zip_of(&[
        ("META-INF/container.xml", CONTAINER),
        ("OEBPS/content.opf", opf),
        ("OEBPS/images/c.png", "PNGDATA"),
        ("OEBPS/c.xhtml", "<html><body><p>Text</p><img src=\"images/c.png\" alt=\"A cover\"/></body></html>"),
    ]);
    let book = parse_epub_bytes(&bytes, "/tmp/c.epub").unwrap();
    assert_eq!(book.metadata.cover_image_key, Some("OEBPS/images/c.png".to_string()));
    assert_eq!(book.resources.get("OEBPS/images/c.png").unwrap(), b"PNGDATA");
    assert_eq!(book.metadata.title, "Unknown Title");
    assert_eq!(book.content.len(), 2);
    assert_eq!(book.file_path, "/tmp/c.epub");
    assert_eq!(book.id, sha1_hex(b"/tmp/c.epub"));
}

#[test]
fn test_fb2_zip_errors() {
    let no_fb2 = zip_of(&[("readme.txt", "hello")]);
    match parse_fb2_zip_bytes(&no_fb2, "/tmp/a.fb2.zip") {
        Err(AppError::Parse(m)) => assert_eq!(m, "No .fb2 file found inside ZIP archive"),
        _ => panic!("expected a missing-member error"),
    }
    match parse_fb2_zip_bytes(b"garbage", "/tmp/a.fb2.zip") {
        Err(AppError::Parse(m)) => assert!(m.starts_with("Failed to open ZIP archive: ")),
        _ => panic!("expected an archive error"),
    }
}

#[test]
fn test_fb2_parse_error_message() {
    match parse_fb2_bytes(b"<FictionBook><body>", "/tmp/a.fb2") {
        Err(AppError::Parse(m)) => assert!(m.starts_with("FB2 XML parse error: ")),
        _ => panic!("expected a parse error"),
    }
}

#[test]
fn test_local_uri_forms_name_the_same_file() {
    let plain = local_path_from_uri("/tmp/books/a%20b.fb2");
    assert_eq!(plain, "/tmp/books/a b.fb2");
    assert_eq!(local_path_from_uri("file:///tmp/books/a%20b.fb2"), plain);
    assert_eq!(local_path_from_uri("file://localhost/tmp/books/a%20b.fb2"), plain);
    assert_eq!(percent_encoding_decode("100%"), "100%");
    assert_eq!(percent_encoding_decode("%zz"), "%zz");
    assert_eq!(percent_encoding_decode("%D0%BA%D0%BD%D0%B8%D0%B3%D0%B0.fb2"), "книга.fb2");
    assert_eq!(percent_encoding_decode("no escapes here"), "no escapes here");
}

#[test]
fn test_percent_escape_needs_two_hex_digits() {
    assert_eq!(percent_encoding_decode("%+F"), "%+F");
    assert_eq!(percent_encoding_decode("%4"), "%4");
    assert_eq!(percent_encoding_decode("%4a%4A"), "JJ");
    let t = "Ünïcödé name.fb2";
    let escaped: String = t.as_bytes().iter().map(|b| format!("%{:02X}", b)).collect();
    assert_eq!(percent_encoding_decode(&escaped), t);
}
