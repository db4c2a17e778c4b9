use fbii::config::{KeyAction, KeyMap, TypographyConfig};
use fbii::formats::model::{Block, Book, Inline, ListItem, Metadata, PoemStanza, TableCell, TableRow};
use fbii::renderer::{simplify_blocks, BookLayout};
use fbii::search::{fold_str, BookSearchIndex};

fn book_of(blocks: Vec<Block>) -> Book {
    let mut book = Book::new("b1".to_string(), "/path/book.fb2".to_string(), Metadata::default());
    book.content = blocks;
    book
}

fn para(s: &str) -> Block {
    Block::Paragraph(vec![Inline::Text(s.to_string())])
}

fn line_text(layout: &BookLayout, i: usize) -> String {
    layout.lines[i].spans.iter().map(|s| s.text.as_str()).collect()
}

fn all_text(layout: &BookLayout) -> String {
    layout.lines.iter().flat_map(|l| l.spans.iter()).map(|s| s.text.as_str()).collect()
}

#[test]
fn test_layout_word_wrapping_and_measure() {
    let book = book_of(vec![para("The quick brown fox jumps over the lazy dog near the river bank.")]);
    let config = TypographyConfig { measure: 30, ..Default::default() };
    let layout = BookLayout::build(&book, &config, false);
    assert!(layout.lines.len() > 1);
    for i in 0..layout.lines.len() {
        let t = line_text(&layout, i);
        assert!(unicode_width::UnicodeWidthStr::width(t.as_str()) <= 32);
    }
}

#[test]
fn test_layout_cjk_wide_character_wrapping() {
    let cjk_text = "日本語の文章と漢字の折り返しテストです。";
    let book = book_of(vec![para(cjk_text)]);
    let config = TypographyConfig { measure: 10, paragraph_indent: 0, ..Default::default() };
    let layout = BookLayout::build(&book, &config, false);
    assert!(layout.lines.len() > 3);
    for i in 0..layout.lines.len() {
        let t = line_text(&layout, i);
        assert!(unicode_width::UnicodeWidthStr::width(t.as_str()) <= 10, "line '{}' exceeds the configured measure", t);
    }
    assert_eq!(all_text(&layout), cjk_text);
}

#[test]
fn test_layout_char_offset_line_mapping() {
    let book = book_of(vec![para("First paragraph content."), para("Second paragraph content.")]);
    let layout = BookLayout::build(&book, &TypographyConfig::default(), false);
    assert_eq!(layout.line_at_char_offset(0), 0);
}

#[test]
fn test_simplified_mode() {
    let blocks = vec![Block::Quote(vec![Block::Paragraph(vec![Inline::Bold(vec![Inline::Text(
        "Quote content".to_string(),
    )])])])];
    let simplified = simplify_blocks(&blocks);
    assert_eq!(simplified.len(), 1);
    match &simplified[0] {
        Block::Paragraph(inlines) => {
            assert_eq!(inlines[0], Inline::Bold(vec![Inline::Text("Quote content".to_string())]));
        },
        _ => panic!("Expected paragraph"),
    }
}

#[test]
fn test_nfkd_fold_search() {
    assert_eq!(fold_str("İstanbul"), "istanbul");
    assert_eq!(fold_str("CAFÉ"), "cafe");
    assert_eq!(fold_str("Résumé"), "resume");
    assert_eq!(fold_str("Müller"), "muller");

    let book = book_of(vec![para("Welcome to İstanbul!"), para("Enjoy a hot café au lait.")]);
    let index = BookSearchIndex::build(&book);
    let results = index.search("istanbul");
    assert_eq!(results.len(), 1);
    assert_eq!(results[0].block_index, 0);

    let cafe_results = index.search("cafe");
    assert_eq!(cafe_results.len(), 1);
    assert_eq!(cafe_results[0].block_index, 1);
}

#[test]
fn test_search_matches_map_correctly_to_layout_lines() {
    let book = book_of(vec![
        para("First block header."),
        para("Second block with unique target word inside."),
        para("Third block closing."),
    ]);
    let layout = BookLayout::build(&book, &TypographyConfig::default(), false);
    let index = BookSearchIndex::build(&book);
    let matches = index.search("target");
    assert_eq!(matches.len(), 1);
    assert_eq!(matches[0].block_index, 1);
    let line_idx = layout.line_at_char_offset(matches[0].char_start);
    assert!(line_idx > 0 && line_idx < layout.lines.len() - 1);
}

#[test]
fn test_typography_layout_options() {
    let book = book_of(vec![
        para("First long word supercalifragilisticexpialidocious sentence."),
        para("Second paragraph containing multiple words to test justification."),
    ]);

    let indent_config = TypographyConfig {
        paragraph_indent: 4,
        paragraph_spacing: 0,
        line_spacing: 0,
        measure: 80,
        hyphenation: false,
        justified: false,
    };
    let layout_indent = BookLayout::build(&book, &indent_config, false);
    let first_line_text = line_text(&layout_indent, 0);
    assert!(first_line_text.starts_with("    First"), "First line should start with 4 indent spaces: '{}'", first_line_text);

    let spacing_config = TypographyConfig {
        paragraph_indent: 0,
        paragraph_spacing: 2,
        line_spacing: 0,
        measure: 80,
        hyphenation: false,
        justified: false,
    };
    let layout_spacing = BookLayout::build(&book, &spacing_config, false);
    let empty_lines = layout_spacing.lines.iter().filter(|l| l.is_empty_line).count();
    assert_eq!(empty_lines, 2, "Should insert 2 empty lines for paragraph_spacing");

    let hyphen_config = TypographyConfig {
        paragraph_indent: 0,
        paragraph_spacing: 0,
        line_spacing: 0,
        measure: 15,
        hyphenation: true,
        justified: false,
    };
    let layout_hyphen = BookLayout::build(&book, &hyphen_config, false);
    let has_hyphen =
        layout_hyphen.lines.iter().any(|l| l.spans.iter().any(|s| s.text.ends_with('-') || s.text.contains('-')));
    assert!(has_hyphen, "Hyphenation should split long words exceeding measure");

    let justify_config = TypographyConfig {
        paragraph_indent: 0,
        paragraph_spacing: 0,
        line_spacing: 0,
        measure: 30,
        hyphenation: false,
        justified: true,
    };
    let layout_justify = BookLayout::build(&book, &justify_config, false);
    assert!(!layout_justify.lines.is_empty());
}

#[test]
fn test_line_spacing_inserts_blank_lines_between_wrapped_lines() {
    let book = book_of(vec![para("one two three four five six seven eight nine ten eleven twelve")]);
    let narrow_config = TypographyConfig { measure: 10, line_spacing: 1, ..Default::default() };
    let single_spaced = BookLayout::build(&book, &narrow_config, false);
    assert!(single_spaced.lines.len() > 1, "expected wrapping to occur");
    let double_spaced_config = TypographyConfig { measure: 10, line_spacing: 2, ..Default::default() };
    let double_spaced = BookLayout::build(&book, &double_spaced_config, false);
    assert!(double_spaced.lines.len() > single_spaced.lines.len());
}

#[test]
fn test_i_r_j_w_hotkeys_and_search_highlighting() {
    let keymap = KeyMap::default();
    let bindings = &keymap.bindings;
    assert_eq!(bindings.get("i"), Some(&KeyAction::Info));
    assert_eq!(bindings.get("R"), Some(&KeyAction::CycleSort));
    assert_eq!(bindings.get("J"), Some(&KeyAction::ToggleJustify));
    assert_eq!(bindings.get("W"), Some(&KeyAction::ToggleWidescreen));

    let mut book = Book::new("b_search".to_string(), "/path/search.fb2".to_string(), Metadata::default());
    book.content = vec![para("The quick brown fox jumps over the lazy dog.")];
    let index = BookSearchIndex::build(&book);
    let matches = index.search("fox");
    assert_eq!(matches.len(), 1);
    assert_eq!(matches[0].char_start, 16);
    assert_eq!(matches[0].char_end, 19);

    let layout = BookLayout::build(&book, &TypographyConfig::default(), false);
    assert!(!layout.lines.is_empty());
}

#[test]
fn test_layout_keeps_every_character_of_plain_paragraphs() {
    let text = "alpha beta gamma delta epsilon zeta eta theta iota kappa lambda";
    let book = book_of(vec![para(text)]);
    let config = TypographyConfig { measure: 30, paragraph_indent: 0, paragraph_spacing: 0, ..Default::default() };
    let layout = BookLayout::build(&book, &config, false);
    let joined: String = (0..layout.lines.len()).map(|i| line_text(&layout, i)).collect::<Vec<_>>().join(" ");
    assert_eq!(joined.split_whitespace().collect::<Vec<_>>(), text.split_whitespace().collect::<Vec<_>>());
}

#[test]
fn test_line_at_char_offset_is_monotone() {
    let book = book_of(vec![para("First paragraph content."), para("Second paragraph content."), para("Third.")]);
    let layout = BookLayout::build(&book, &TypographyConfig::default(), false);
    let mut last = 0;
    for off in 0..80 {
        let l = layout.line_at_char_offset(off);
        assert!(l >= last);
        assert!(l < layout.lines.len());
        last = l;
    }
    assert_eq!(layout.line_at_char_offset(0), 0);
}

#[test]
fn test_empty_book_layout_and_search() {
    let book = book_of(vec![]);
    let layout = BookLayout::build(&book, &TypographyConfig::default(), false);
    assert_eq!(layout.line_at_char_offset(5), 0);
    let index = BookSearchIndex::build(&book);
    assert!(index.search("anything").is_empty());
}

#[test]
fn test_search_finds_every_occurrence_in_order() {
    let book = book_of(vec![para("ab ab"), para("xab")]);
    let index = BookSearchIndex::build(&book);
    let m = index.search("AB");
    assert_eq!(m.len(), 3);
    assert_eq!((m[0].block_index, m[0].char_start, m[0].char_end), (0, 0, 2));
    assert_eq!((m[1].block_index, m[1].char_start, m[1].char_end), (0, 3, 5));
    assert_eq!(m[2].block_index, 1);
    assert!(index.search("").is_empty());
}

fn mixed_book() -> Book {
    book_of(vec![
        Block::Heading { level: 1, inlines: vec![Inline::Text("A heading".to_string())] },
        para("A paragraph long enough to be wrapped over a few lines at a narrow measure."),
        Block::Quote(vec![para("Quoted words, also rather long, so that they wrap.")]),
        Block::List {
            ordered: true,
            items: vec![
                ListItem { inlines: vec![Inline::Text("first item".to_string())] },
                ListItem { inlines: vec![Inline::Text("second item".to_string())] },
            ],
        },
        Block::Table {
            rows: vec![TableRow {
                cells: vec![
                    TableCell { is_header: true, inlines: vec![Inline::Text("a".to_string())] },
                    TableCell { is_header: false, inlines: vec![Inline::Text("b".to_string())] },
                ],
            }],
        },
        Block::Poem { stanzas: vec![PoemStanza { lines: vec![vec![Inline::Text("a line of verse".to_string())]] }] },
        Block::Image { key: "img.png".to_string(), alt: Some("alt".to_string()) },
        Block::Empty,
        para("The end."),
    ])
}

#[test]
fn test_lines_come_in_reading_order() {
    let book = mixed_book();
    for (measure, spacing) in [(20u16, 1u8), (40, 2), (80, 3)] {
        let config = TypographyConfig { measure, line_spacing: spacing, ..Default::default() };
        for simplified in [false, true] {
            let layout = BookLayout::build(&book, &config, simplified);
            for w in layout.lines.windows(2) {
                assert!(w[0].char_start <= w[0].char_end);
                assert!(w[0].char_end <= w[1].char_start);
            }
        }
    }
}

#[test]
fn test_block_starts_do_not_depend_on_typography() {
    let book = mixed_book();
    let narrow = TypographyConfig { measure: 20, ..Default::default() };
    let wide = TypographyConfig { measure: 120, paragraph_indent: 0, line_spacing: 2, ..Default::default() };
    let a = BookLayout::build(&book, &narrow, false);
    let b = BookLayout::build(&book, &wide, true);
    for block in 0..book.content.len() {
        let sa = a.lines.iter().find(|l| l.block_index == block && !l.is_empty_line).map(|l| l.char_start);
        let sb = b.lines.iter().find(|l| l.block_index == block && !l.is_empty_line).map(|l| l.char_start);
        assert_eq!(sa, sb, "block {} starts at different offsets", block);
    }
}

#[test]
fn test_simplified_content_is_flat_and_stays_as_it_is() {
    let blocks = vec![
        Block::Epigraph(vec![Block::Paragraph(vec![Inline::Link {
            target: "#n1".to_string(),
            inlines: vec![Inline::Italic(vec![Inline::Text("note".to_string())])],
        }])]),
        Block::Image { key: "cover.jpg".to_string(), alt: None },
        Block::Empty,
    ];
    let once = simplify_blocks(&blocks);
    assert_eq!(
        once,
        vec![
            Block::Paragraph(vec![Inline::Italic(vec![Inline::Text("note".to_string())])]),
            Block::Paragraph(vec![Inline::Text("[Image: cover.jpg]".to_string())]),
            Block::Empty,
        ]
    );
    assert_eq!(simplify_blocks(&once), once);
}

#[test]
fn test_layout_lines_tile_the_characters() {
    let book = book_of(vec![
        para("The quick brown fox jumps over the lazy dog."),
        Block::Empty,
        Block::Quote(vec![para("A quoted line that wraps around.")]),
        para("Extraordinarily long words appear here."),
    ]);
    let config = TypographyConfig { measure: 12, line_spacing: 2, hyphenation: true, ..Default::default() };
    let layout = BookLayout::build(&book, &config, false);
    assert!(!layout.lines.is_empty());
    assert_eq!(layout.lines[0].char_start, 0);
    for i in 0..layout.lines.len() {
        let l = &layout.lines[i];
        assert!(l.char_start <= l.char_end);
        if l.is_empty_line {
            assert_eq!(l.char_start, l.char_end);
        }
        if i + 1 < layout.lines.len() {
            assert_eq!(layout.lines[i + 1].char_start, l.char_end);
            assert!(l.block_index <= layout.lines[i + 1].block_index);
        }
    }
    let total: usize = "The quick brown fox jumps over the lazy dog.".chars().count()
        + "A quoted line that wraps around.".chars().count()
        + "Extraordinarily long words appear here.".chars().count();
    assert_eq!(layout.lines.last().unwrap().char_end, total);
}

#[test]
fn test_unjustified_lines_keep_to_the_measure() {
    let book = book_of(vec![para("Some words fit here while Supercalifragilisticexpialidocious does not fit.")]);
    let config = TypographyConfig { measure: 12, paragraph_indent: 2, justified: false, hyphenation: false, ..Default::default() };
    let layout = BookLayout::build(&book, &config, false);
    for (k, l) in layout.lines.iter().enumerate() {
        let words: Vec<&str> = l.spans.iter().skip(if k == 0 { 1 } else { 0 }).map(|s| s.text.as_str()).collect();
        let cols: usize = words.iter().map(|w| unicode_width::UnicodeWidthStr::width(*w)).sum::<usize>() + if k == 0 { 2 } else { 0 };
        assert!(cols <= 12 || words.len() <= 1, "line {} takes {} columns", k, cols);
    }
}

#[test]
fn test_ascii_search_finds_the_word_and_its_block_start() {
    let book = book_of(vec![para("The quick brown fox."), para("Another FOX here.")]);
    let index = BookSearchIndex::build(&book);
    let m = index.search("Fox");
    assert_eq!(m.len(), 2);
    assert_eq!((m[0].block_index, m[0].char_start, m[0].char_end), (0, 16, 19));
    assert_eq!((m[1].block_index, m[1].char_start), (1, 20 + 8));
    let layout = BookLayout::build(&book, &TypographyConfig::default(), false);
    for (i, off) in index.block_char_offsets.iter().enumerate() {
        let first = layout.lines.iter().find(|l| l.block_index == i).unwrap();
        assert_eq!(first.char_start, *off);
    }
    assert_eq!(fold_str("Brown FOX"), "brown fox");
    assert_eq!(fold_str(&fold_str("Brown FOX")), fold_str("Brown FOX"));
}
