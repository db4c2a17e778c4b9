//! The reader's application state and the decisions taken on each action
//! and key press. Whatever needs the terminal, the database, the network
//! or the file system is handed back to the caller as an `Effect`, whose
//! outcome the caller reports with the methods made for it.
use crate::config::keymap::{key_le, key_le_exec, lemma_key_le_total, lemma_key_le_trans, str_eq};
use crate::config::{Config, DisplayConfig, KeyAction, TypographyConfig};
use crate::formats::model::Book;
use crate::renderer::layout::{
    blocks_char_count, blocks_chars, build_lines, decimal, decimal_string, is_line_at, lviews, sviews, BookLayout,
    LineV, SpanV, StyledSpan, WrappedLine,
};
use crate::search::index::{
    matches_of, mviews, plain_text_char_count, MatchV, string_views, texts_len, BookSearchIndex, SearchMatch,
};
use crate::formats::model::blocks_texts;
use crate::text::{
    chars_of, contains_exec, contains_seq, lowercase, lowercase_string, owned, parse_usize, parsed_usize, push_char, starts_with,
    starts_with_exec, string_from_chars,
    string_of_range,
    trim_chars, trimmed,
};
use crate::themes::catalog::{theme_for_name, theme_name, theme_names, THEME_COUNT};
use crate::themes::Theme;
use crate::tui::keymap_dispatcher::{dispatch, key_name, KeyCode, KeyInput, KeymapDispatcher};
use vstd::prelude::*;
use vstd::relations::{sorted_by, total_ordering};

verus! {

#[derive(Debug, Clone, Copy, PartialEq, Eq, Structural)]
pub enum AppMode {
    Library,
    Reader,
    SearchInput,
    CommandInput,
    OpenFileInput,
    /// Typing the filter of the library list.
    FilterInput,
}

/// The order of the library list.
#[derive(Debug, Clone, Copy, PartialEq, Eq, Structural)]
pub enum LibrarySortMode {
    /// As stored: most recently read first.
    Recent,
    Title,
    Author,
}

/// A book of the library, as the list shows it.
#[derive(Debug)]
pub struct LibraryEntry {
    pub id: String,
    pub title: String,
    pub authors: String,
    pub file_path: String,
    pub format: String,
    pub progress_offset: usize,
}

/// A bookmark of the open book.
#[derive(Debug)]
pub struct Bookmark {
    pub id: String,
    pub char_offset: usize,
    pub label: String,
}

/// The state of the library list.
#[derive(Debug)]
pub struct LibraryView {
    /// Position of the selected book in the visible list.
    pub selected: Option<usize>,
    pub sort_mode: LibrarySortMode,
    pub filter: String,
}

impl LibraryView {
    pub fn new() -> (r: Self)
        ensures
            r.selected == Some(0usize),
            r.sort_mode == LibrarySortMode::Recent,
            r.filter@ == Seq::<char>::empty(),
    {
        LibraryView { selected: Some(0), sort_mode: LibrarySortMode::Recent, filter: String::new() }
    }
}

/// The state of the reading view and its modal windows.
#[derive(Debug)]
pub struct ReaderView {
    /// Index of the first layout line on screen.
    pub scroll_offset: usize,
    pub show_toc: bool,
    pub show_bookmarks: bool,
    pub show_help: bool,
    pub show_info: bool,
    pub show_themes: bool,
    pub show_image: bool,
    pub toc_selected: Option<usize>,
    pub bookmark_selected: Option<usize>,
    pub theme_selected: Option<usize>,
    pub bookmark_items: Vec<Bookmark>,
    /// Height of the text area when it was last drawn; a page.
    pub last_viewport_height: usize,
    /// Resource key of the image shown in the image window.
    pub current_image_key: Option<String>,
}

impl ReaderView {
    pub fn new() -> (r: Self)
        ensures
            r.scroll_offset == 0,
            !r.show_toc && !r.show_bookmarks && !r.show_help && !r.show_info,
            !r.show_themes && !r.show_image,
            r.toc_selected == Some(0usize),
            r.bookmark_selected == Some(0usize),
            r.theme_selected == Some(0usize),
            r.bookmark_items@.len() == 0,
            r.last_viewport_height == 20,
            r.current_image_key is None,
    {
        ReaderView {
            scroll_offset: 0,
            show_toc: false,
            show_bookmarks: false,
            show_help: false,
            show_info: false,
            show_themes: false,
            show_image: false,
            toc_selected: Some(0),
            bookmark_selected: Some(0),
            theme_selected: Some(0),
            bookmark_items: Vec::new(),
            last_viewport_height: 20,
            current_image_key: None,
        }
    }
}

// ---------------------------------------------------------------------
// The visible library list

/// Strict order of sort keys.
pub open spec fn key_lt(a: Seq<char>, b: Seq<char>) -> bool {
    key_le(a, b) && !key_le(b, a)
}

pub open spec fn entry_key(e: LibraryEntry, mode: LibrarySortMode) -> Seq<char> {
    match mode {
        LibrarySortMode::Recent => Seq::empty(),
        LibrarySortMode::Title => lowercase(e.title@),
        LibrarySortMode::Author => lowercase(e.authors@),
    }
}

/// An entry passes the filter when the filter is empty or occurs, case
/// aside, in its title or its authors.
pub open spec fn passes_filter(e: LibraryEntry, filter: Seq<char>) -> bool {
    let f = lowercase(filter);
    f.len() == 0 || contains_seq(lowercase(e.title@), f) || contains_seq(lowercase(e.authors@), f)
}

/// Entry `i` is listed before entry `j`: by sort key, then as stored.
pub open spec fn listed_before(books: Seq<LibraryEntry>, mode: LibrarySortMode, i: int, j: int) -> bool {
    key_lt(entry_key(books[i], mode), entry_key(books[j], mode)) || (entry_key(books[i], mode)
        == entry_key(books[j], mode) && i < j)
}

fn entry_sort_key(e: &LibraryEntry, mode: LibrarySortMode) -> (r: Vec<char>)
    ensures
        r@ == entry_key(*e, mode),
{
    match mode {
        LibrarySortMode::Recent => Vec::new(),
        LibrarySortMode::Title => chars_of(lowercase_string(e.title.as_str()).as_str()),
        LibrarySortMode::Author => chars_of(lowercase_string(e.authors.as_str()).as_str()),
    }
}

fn entry_passes(e: &LibraryEntry, f: &str) -> (r: bool)
    ensures
        r == (f@.len() == 0 || contains_seq(lowercase(e.title@), f@) || contains_seq(lowercase(e.authors@), f@)),
{
    if f.unicode_len() == 0 {
        return true;
    }
    let t = chars_of(lowercase_string(e.title.as_str()).as_str());
    if contains_exec(&t, f) {
        return true;
    }
    let a = chars_of(lowercase_string(e.authors.as_str()).as_str());
    contains_exec(&a, f)
}

proof fn lemma_key_lt_trans(a: Seq<char>, b: Seq<char>, c: Seq<char>)
    requires
        key_lt(a, b),
        key_le(b, c),
    ensures
        key_lt(a, c),
{
    lemma_key_le_trans(a, b, c);
    if key_le(c, a) {
        lemma_key_le_trans(b, c, a);
    }
}

/// The positions, in storage order, of the first `k` entries that pass
/// the filter.
pub open spec fn passing(books: Seq<LibraryEntry>, filter: Seq<char>, k: int) -> Seq<usize>
    decreases k,
{
    if k <= 0 {
        Seq::empty()
    } else if passes_filter(books[k - 1], filter) {
        passing(books, filter, k - 1).push((k - 1) as usize)
    } else {
        passing(books, filter, k - 1)
    }
}

/// The order of the library list on positions: by sort key, then as
/// stored.
pub open spec fn list_order(books: Seq<LibraryEntry>, mode: LibrarySortMode) -> spec_fn(usize, usize) -> bool {
    |i: usize, j: usize| listed_before(books, mode, i as int, j as int) || i == j
}

/// The positions of the books shown in the library list, in order.
pub open spec fn listing(books: Seq<LibraryEntry>, mode: LibrarySortMode, filter: Seq<char>) -> Seq<usize> {
    passing(books, filter, books.len() as int).sort_by(list_order(books, mode))
}

pub proof fn lemma_list_order_total(books: Seq<LibraryEntry>, mode: LibrarySortMode)
    ensures
        total_ordering(list_order(books, mode)),
{
    let o = list_order(books, mode);
    assert forall|a: usize, b: usize, c: usize| #[trigger] o(a, b) && #[trigger] o(b, c) implies o(a, c) by {
        let ka = entry_key(books[a as int], mode);
        let kb = entry_key(books[b as int], mode);
        let kc = entry_key(books[c as int], mode);
        lemma_key_le_total(ka, kb);
        lemma_key_le_total(kb, kc);
        lemma_key_le_total(ka, kc);
        if key_le(ka, kb) && key_le(kb, kc) {
            lemma_key_le_trans(ka, kb, kc);
        }
        if key_le(kc, ka) && key_le(ka, kb) {
            lemma_key_le_trans(kc, ka, kb);
        }
        if key_le(kb, kc) && key_le(kc, ka) {
            lemma_key_le_trans(kb, kc, ka);
        }
    }
    assert forall|a: usize, b: usize| #[trigger] o(a, b) || o(b, a) by {
        lemma_key_le_total(entry_key(books[a as int], mode), entry_key(books[b as int], mode));
    }
    assert forall|a: usize, b: usize| #[trigger] o(a, b) && #[trigger] o(b, a) implies a == b by {
        lemma_key_le_total(entry_key(books[a as int], mode), entry_key(books[b as int], mode));
    }
}

/// The positions of the books of the visible library list, in the order
/// shown: those that pass the filter, sorted by the sort mode.
pub fn visible_indices(books: &Vec<LibraryEntry>, view: &LibraryView) -> (r: Vec<usize>)
    ensures
        r@ == listing(books@, view.sort_mode, view.filter@),
        forall|k: int| 0 <= k < r@.len() ==> #[trigger] r@[k] < books@.len(),
{
    let mode = view.sort_mode;
    let ghost order = list_order(books@, mode);
    let f = lowercase_string(view.filter.as_str());
    let mut out: Vec<usize> = Vec::new();
    let mut keys: Vec<Vec<char>> = Vec::new();
    let mut i: usize = 0;
    proof {
        lemma_list_order_total(books@, mode);
    }
    while i < books.len()
        invariant
            i <= books@.len(),
            f@ == lowercase(view.filter@),
            order == list_order(books@, mode),
            keys@.len() == out@.len(),
            forall|k: int| 0 <= k < out@.len() ==> #[trigger] keys@[k]@ == entry_key(books@[out@[k] as int], mode),
            forall|k: int| 0 <= k < out@.len() ==> #[trigger] out@[k] < i,
            out@.to_multiset() == passing(books@, view.filter@, i as int).to_multiset(),
            sorted_by(out@, order),
        decreases books.len() - i,
    {
        broadcast use vstd::seq_lib::group_to_multiset_ensures;
        let ghost pp = passing(books@, view.filter@, i as int);
        if entry_passes(&books[i], f.as_str()) {
            let ki = entry_sort_key(&books[i], mode);
            let mut j: usize = 0;
            while j < out.len() && key_le_exec(&keys[j], &ki)
                invariant
                    j <= out@.len(),
                    keys@.len() == out@.len(),
                    forall|k: int| 0 <= k < j ==> key_le(#[trigger] keys@[k]@, ki@),
                decreases out.len() - j,
            {
                j = j + 1;
            }
            let ghost oo = out@;
            let ghost ok = keys@;
            proof {
                if j < oo.len() {
                    lemma_key_le_total(ok[j as int]@, ki@);
                    assert(key_lt(ki@, ok[j as int]@));
                }
            }
            out.insert(j, i);
            keys.insert(j, ki);
            proof {
                vstd::seq_lib::to_multiset_insert(oo, j as int, i);
                assert(out@ =~= oo.insert(j as int, i));
                assert(passing(books@, view.filter@, i + 1) == pp.push(i));
                vstd::seq_lib::to_multiset_build(pp, i);
                assert forall|k: int| 0 <= k < out@.len() implies #[trigger] keys@[k]@ == entry_key(books@[out@[k] as int], mode) by {
                    if k < j {
                        assert(out@[k] == oo[k] && keys@[k] == ok[k]);
                    } else if k > j {
                        assert(out@[k] == oo[k - 1] && keys@[k] == ok[k - 1]);
                    }
                }
                assert forall|k: int| 0 <= k < out@.len() implies #[trigger] out@[k] < i + 1 by {
                    if k < j {
                        assert(out@[k] == oo[k]);
                    } else if k > j {
                        assert(out@[k] == oo[k - 1]);
                    }
                }
                assert forall|a: int, b: int| 0 <= a < b < out@.len() implies order(#[trigger] out@[a], #[trigger] out@[b]) by {
                    if a < j && b < j {
                        assert(out@[a] == oo[a] && out@[b] == oo[b]);
                        assert(order(oo[a], oo[b]));
                    } else if a < j && b == j {
                        assert(out@[a] == oo[a] && keys@[a] == ok[a]);
                        assert(key_le(ok[a]@, ki@));
                        lemma_key_le_total(ok[a]@, ki@);
                    } else if a < j && b > j {
                        assert(out@[a] == oo[a] && out@[b] == oo[b - 1]);
                        assert(order(oo[a], oo[b - 1]));
                    } else if a == j {
                        assert(out@[b] == oo[b - 1] && keys@[b] == ok[b - 1]);
                        if b - 1 > j {
                            assert(order(oo[j as int], oo[b - 1]));
                            assert(keys@[j + 1] == ok[j as int]);
                            lemma_key_le_total(ok[j as int]@, ok[b - 1]@);
                            lemma_key_lt_trans(ki@, ok[j as int]@, ok[b - 1]@);
                        }
                    } else {
                        assert(out@[a] == oo[a - 1] && out@[b] == oo[b - 1]);
                        assert(order(oo[a - 1], oo[b - 1]));
                    }
                }
            }
        } else {
            assert(passing(books@, view.filter@, i + 1) == pp);
        }
        i = i + 1;
    }
    proof {
        let p = passing(books@, view.filter@, books@.len() as int);
        p.lemma_sort_by_ensures(order);
        vstd::seq_lib::lemma_sorted_unique(out@, p.sort_by(order), order);
    }
    out
}


// ---------------------------------------------------------------------
// Effects

/// What the caller has to carry out after an action; the outcome is
/// reported back through the methods made for it.
#[derive(Debug)]
pub enum Effect {
    Nothing,
    /// Store the reading position (a line out of the layout's lines).
    SaveProgress { book_id: String, offset: usize, total_lines: usize },
    AddBookmark { book_id: String, char_offset: usize, label: String },
    /// Fetch the bookmarks of a book and hand them to `bookmarks_loaded`.
    LoadBookmarks { book_id: String },
    /// Parse the book at a path and hand it to `load_book` (or the error
    /// to `report_error`).
    OpenLibraryBook { path: String },
    /// Open a path, `file://` URI or URL, as `OpenLibraryBook` does.
    OpenUri { uri: String },
    DeleteBook { book_id: String },
    DeleteBookmark { bookmark_id: String },
    /// Decode and show the image stored under `key`.
    ShowImage { key: String },
    /// Open the configuration file in the user's editor.
    EditConfig,
    /// Import the books found under a directory.
    ScanDirectory { dir: String },
    /// Fetch and show an OPDS feed.
    OpenOpds { url: String },
    /// Write the configuration file.
    SaveConfig,
    /// Read the clipboard and hand its text to `paste`.
    ReadClipboard,
}

pub enum EffectV {
    Nothing,
    SaveProgress { book_id: Seq<char>, offset: int, total_lines: int },
    AddBookmark { book_id: Seq<char>, char_offset: int, label: Seq<char> },
    LoadBookmarks { book_id: Seq<char> },
    OpenLibraryBook { path: Seq<char> },
    OpenUri { uri: Seq<char> },
    DeleteBook { book_id: Seq<char> },
    DeleteBookmark { bookmark_id: Seq<char> },
    ShowImage { key: Seq<char> },
    EditConfig,
    ScanDirectory { dir: Seq<char> },
    OpenOpds { url: Seq<char> },
    SaveConfig,
    ReadClipboard,
}

impl View for Effect {
    type V = EffectV;

    open spec fn view(&self) -> EffectV {
        match self {
            Effect::Nothing => EffectV::Nothing,
            Effect::SaveProgress { book_id, offset, total_lines } => EffectV::SaveProgress {
                book_id: book_id@,
                offset: *offset as int,
                total_lines: *total_lines as int,
            },
            Effect::AddBookmark { book_id, char_offset, label } => EffectV::AddBookmark {
                book_id: book_id@,
                char_offset: *char_offset as int,
                label: label@,
            },
            Effect::LoadBookmarks { book_id } => EffectV::LoadBookmarks { book_id: book_id@ },
            Effect::OpenLibraryBook { path } => EffectV::OpenLibraryBook { path: path@ },
            Effect::OpenUri { uri } => EffectV::OpenUri { uri: uri@ },
            Effect::DeleteBook { book_id } => EffectV::DeleteBook { book_id: book_id@ },
            Effect::DeleteBookmark { bookmark_id } => EffectV::DeleteBookmark { bookmark_id: bookmark_id@ },
            Effect::ShowImage { key } => EffectV::ShowImage { key: key@ },
            Effect::EditConfig => EffectV::EditConfig,
            Effect::ScanDirectory { dir } => EffectV::ScanDirectory { dir: dir@ },
            Effect::OpenOpds { url } => EffectV::OpenOpds { url: url@ },
            Effect::SaveConfig => EffectV::SaveConfig,
            Effect::ReadClipboard => EffectV::ReadClipboard,
        }
    }
}

// ---------------------------------------------------------------------
// The application

pub struct App {
    pub mode: AppMode,
    pub config: Config,
    pub theme: Theme,
    pub library_books: Vec<LibraryEntry>,
    pub active_book: Option<Book>,
    pub active_layout: Option<BookLayout>,
    pub search_index: Option<BookSearchIndex>,
    pub search_matches: Vec<SearchMatch>,
    pub current_match_idx: usize,
    pub input_buffer: String,
    pub key_dispatcher: KeymapDispatcher,
    pub library_view: LibraryView,
    pub reader_view: ReaderView,
    pub status_message: Option<String>,
    pub command_history: Vec<String>,
    pub search_history: Vec<String>,
    pub command_history_idx: Option<usize>,
    pub search_history_idx: Option<usize>,
    pub is_running: bool,
    /// The mode the command line was opened from; a command runs there.
    pub command_origin: AppMode,
    /// Whether the desktop asks for a light color scheme (for the themes
    /// that follow the desktop).
    pub desktop_light: bool,
}

/// The position a list selection stands for (`unwrap_or(0)`).
pub open spec fn sel(o: Option<usize>) -> int {
    match o {
        Some(i) => i as int,
        None => 0,
    }
}

pub open spec fn line_count(s: App) -> int {
    match s.active_layout {
        Some(l) => l.lines@.len() as int,
        None => 0,
    }
}

/// Rows scrolled by a page: the height of the text area, at least one.
pub open spec fn page_rows(s: App) -> int {
    if s.reader_view.last_viewport_height == 0 {
        1
    } else {
        s.reader_view.last_viewport_height as int
    }
}

/// Rows scrolled by half a page, at least one.
pub open spec fn half_page_rows(s: App) -> int {
    if s.reader_view.last_viewport_height / 2 == 0 {
        1
    } else {
        (s.reader_view.last_viewport_height / 2) as int
    }
}

pub open spec fn sat_sub(a: int, b: int) -> int {
    if a >= b {
        a - b
    } else {
        0
    }
}

pub open spec fn min_int(a: int, b: int) -> int {
    if a <= b {
        a
    } else {
        b
    }
}

/// The progress of the open book, to be saved.
pub open spec fn progress_of(s: App) -> EffectV {
    if s.active_book is Some && s.active_layout is Some {
        EffectV::SaveProgress {
            book_id: s.active_book->0.id@,
            offset: s.reader_view.scroll_offset as int,
            total_lines: s.active_layout->0.lines@.len() as int,
        }
    } else {
        EffectV::Nothing
    }
}

impl App {
    /// The state is consistent: a book is open with its layout and its
    /// index, its character counts fit in a `usize`, the current match
    /// and history positions exist, and a line number past the scroll
    /// offset is representable.
    pub open spec fn wf(&self) -> bool {
        &&& (self.active_book is Some) == (self.active_layout is Some)
        &&& (self.active_book is Some) == (self.search_index is Some)
        &&& (self.active_book matches Some(b) ==> blocks_chars(b.content@, true) <= usize::MAX && blocks_chars(
            b.content@,
            false,
        ) <= usize::MAX)
        &&& (self.search_matches@.len() > 0 ==> self.current_match_idx < self.search_matches@.len())
        &&& self.reader_view.scroll_offset < usize::MAX
        &&& (self.command_history_idx matches Some(i) ==> i < self.command_history@.len())
        &&& (self.search_history_idx matches Some(i) ==> i < self.search_history@.len())
    }

    /// A new application showing the (empty) library, themed as the
    /// configuration says.
    pub fn new(config: Config, desktop_light: bool) -> (r: Self)
        ensures
            r.desktop_light == desktop_light,
            r.command_origin == AppMode::Library,
            r.wf(),
            r.mode == AppMode::Library,
            r.is_running,
            r.config == config,
            theme_for_name(lowercase(config.theme@)) matches Some(k) ==> r.theme.is_kind(k),
            r.library_books@.len() == 0,
            r.active_book is None,
            r.search_matches@.len() == 0,
            r.input_buffer@.len() == 0,
            r.status_message is None,
            r.reader_view.scroll_offset == 0,
            r.key_dispatcher.pending().len() == 0,
            r.command_history@.len() == 0 && r.search_history@.len() == 0,
            r.command_history_idx is None && r.search_history_idx is None,
    {
        let theme = Theme::get_by_name(config.theme.as_str(), desktop_light);
        App {
            command_origin: AppMode::Library,
            desktop_light,
            mode: AppMode::Library,
            config,
            theme,
            library_books: Vec::new(),
            active_book: None,
            active_layout: None,
            search_index: None,
            search_matches: Vec::new(),
            current_match_idx: 0,
            input_buffer: String::new(),
            key_dispatcher: KeymapDispatcher::new(),
            library_view: LibraryView::new(),
            reader_view: ReaderView::new(),
            status_message: None,
            command_history: Vec::new(),
            search_history: Vec::new(),
            command_history_idx: None,
            search_history_idx: None,
            is_running: true,
        }
    }

    fn progress_effect(&self) -> (r: Effect)
        ensures
            r@ == progress_of(*self),
    {
        match (&self.active_book, &self.active_layout) {
            (Some(b), Some(l)) => Effect::SaveProgress {
                book_id: owned(b.id.as_str()),
                offset: self.reader_view.scroll_offset,
                total_lines: l.lines.len(),
            },
            _ => Effect::Nothing,
        }
    }
}


// ---------------------------------------------------------------------
// Actions that only move within the state

/// `Quit`: the innermost open window closes; with none open, the reader
/// returns to the library, and the library ends the application.
pub open spec fn quit_state(s: App) -> App {
    let rv = s.reader_view;
    if rv.show_image {
        App { reader_view: ReaderView { show_image: false, ..rv }, ..s }
    } else if rv.show_themes {
        App { reader_view: ReaderView { show_themes: false, ..rv }, ..s }
    } else if rv.show_info {
        App { reader_view: ReaderView { show_info: false, ..rv }, ..s }
    } else if rv.show_bookmarks {
        App { reader_view: ReaderView { show_bookmarks: false, ..rv }, ..s }
    } else if rv.show_toc {
        App { reader_view: ReaderView { show_toc: false, ..rv }, ..s }
    } else if rv.show_help {
        App { reader_view: ReaderView { show_help: false, ..rv }, ..s }
    } else if s.mode == AppMode::Reader {
        App { mode: AppMode::Library, ..s }
    } else {
        App { is_running: false, ..s }
    }
}

/// `ScrollDown`: the theme picker, the bookmark or contents list, the
/// text or the library list moves one step down, if it can.
pub open spec fn scroll_down_state(s: App) -> App {
    let rv = s.reader_view;
    if rv.show_themes {
        let i = sel(rv.theme_selected);
        if i + 1 < 7 {
            App { reader_view: ReaderView { theme_selected: Some((i + 1) as usize), ..rv }, ..s }
        } else {
            s
        }
    } else if s.mode == AppMode::Reader {
        if rv.show_bookmarks {
            let i = sel(rv.bookmark_selected);
            if i + 1 < rv.bookmark_items@.len() {
                App { reader_view: ReaderView { bookmark_selected: Some((i + 1) as usize), ..rv }, ..s }
            } else {
                s
            }
        } else if rv.show_toc {
            let i = sel(rv.toc_selected);
            if s.active_book is Some && i + 1 < s.active_book->0.toc@.len() {
                App { reader_view: ReaderView { toc_selected: Some((i + 1) as usize), ..rv }, ..s }
            } else {
                s
            }
        } else if rv.scroll_offset + 1 < line_count(s) {
            App { reader_view: ReaderView { scroll_offset: (rv.scroll_offset + 1) as usize, ..rv }, ..s }
        } else {
            s
        }
    } else {
        let n = listing(s.library_books@, s.library_view.sort_mode, s.library_view.filter@).len();
        let i = sel(s.library_view.selected);
        if i + 1 < n {
            App { library_view: LibraryView { selected: Some((i + 1) as usize), ..s.library_view }, ..s }
        } else {
            s
        }
    }
}

/// `ScrollUp`: as `ScrollDown`, one step up, stopping at the top.
pub open spec fn scroll_up_state(s: App) -> App {
    let rv = s.reader_view;
    if rv.show_themes {
        App { reader_view: ReaderView { theme_selected: Some(sat_sub(sel(rv.theme_selected), 1) as usize), ..rv }, ..s }
    } else if s.mode == AppMode::Reader {
        if rv.show_bookmarks {
            App {
                reader_view: ReaderView { bookmark_selected: Some(sat_sub(sel(rv.bookmark_selected), 1) as usize), ..rv },
                ..s
            }
        } else if rv.show_toc {
            App { reader_view: ReaderView { toc_selected: Some(sat_sub(sel(rv.toc_selected), 1) as usize), ..rv }, ..s }
        } else {
            App { reader_view: ReaderView { scroll_offset: sat_sub(rv.scroll_offset as int, 1) as usize, ..rv }, ..s }
        }
    } else if listing(s.library_books@, s.library_view.sort_mode, s.library_view.filter@).len() > 0 {
        App {
            library_view: LibraryView { selected: Some(sat_sub(sel(s.library_view.selected), 1) as usize), ..s.library_view },
            ..s
        }
    } else {
        s
    }
}

/// The reader scrolled to line `to`.
pub open spec fn scrolled_to(s: App, to: int) -> App {
    App { reader_view: ReaderView { scroll_offset: to as usize, ..s.reader_view }, ..s }
}

/// Scrolling down by `rows` in the reader, not past the last line.
pub open spec fn page_down_state(s: App, rows: int) -> App {
    if s.mode == AppMode::Reader && s.active_layout is Some {
        scrolled_to(s, min_int(s.reader_view.scroll_offset + rows, sat_sub(line_count(s), 1)))
    } else {
        s
    }
}

/// Scrolling up by `rows` in the reader, not past the first line.
pub open spec fn page_up_state(s: App, rows: int) -> App {
    if s.mode == AppMode::Reader {
        scrolled_to(s, sat_sub(s.reader_view.scroll_offset as int, rows))
    } else {
        s
    }
}

impl App {
    fn quit(&mut self) -> (e: Effect)
        requires
            old(self).wf(),
        ensures
            final(self).wf(),
            final(self).key_dispatcher == old(self).key_dispatcher,
            *final(self) == quit_state(*old(self)),
            e@ == (if old(self).mode == AppMode::Reader { progress_of(*old(self)) } else { EffectV::Nothing }),
    {
        let e = if self.mode == AppMode::Reader {
            self.progress_effect()
        } else {
            Effect::Nothing
        };
        if self.reader_view.show_image {
            self.reader_view.show_image = false;
        } else if self.reader_view.show_themes {
            self.reader_view.show_themes = false;
        } else if self.reader_view.show_info {
            self.reader_view.show_info = false;
        } else if self.reader_view.show_bookmarks {
            self.reader_view.show_bookmarks = false;
        } else if self.reader_view.show_toc {
            self.reader_view.show_toc = false;
        } else if self.reader_view.show_help {
            self.reader_view.show_help = false;
        } else if self.mode == AppMode::Reader {
            self.mode = AppMode::Library;
        } else {
            self.is_running = false;
        }
        e
    }

    #[verifier::rlimit(60)]
    fn scroll_down(&mut self)
        requires
            old(self).wf(),
        ensures
            final(self).wf(),
            final(self).key_dispatcher == old(self).key_dispatcher,
            *final(self) == scroll_down_state(*old(self)),
    {
        if self.reader_view.show_themes {
            let i = match self.reader_view.theme_selected { Some(i) => i, None => 0 };
            if i < THEME_COUNT - 1 {
                self.reader_view.theme_selected = Some(i + 1);
            }
        } else if self.mode == AppMode::Reader {
            if self.reader_view.show_bookmarks {
                let i = match self.reader_view.bookmark_selected { Some(i) => i, None => 0 };
                let n = self.reader_view.bookmark_items.len();
                if n > 0 && i < n - 1 {
                    self.reader_view.bookmark_selected = Some(i + 1);
                }
            } else if self.reader_view.show_toc {
                let i = match self.reader_view.toc_selected { Some(i) => i, None => 0 };
                let n = match &self.active_book { Some(b) => b.toc.len(), None => 0 };
                if self.active_book.is_some() && n > 0 && i < n - 1 {
                    self.reader_view.toc_selected = Some(i + 1);
                }
            } else {
                let n = match &self.active_layout { Some(l) => l.lines.len(), None => 0 };
                if self.reader_view.scroll_offset + 1 < n {
                    self.reader_view.scroll_offset = self.reader_view.scroll_offset + 1;
                }
            }
        } else {
            let v = visible_indices(&self.library_books, &self.library_view);
            let i = match self.library_view.selected { Some(i) => i, None => 0 };
            if v.len() > 0 && i < v.len() - 1 {
                self.library_view.selected = Some(i + 1);
            }
        }
    }

    #[verifier::rlimit(30)]
    fn scroll_up(&mut self)
        requires
            old(self).wf(),
        ensures
            final(self).wf(),
            final(self).key_dispatcher == old(self).key_dispatcher,
            *final(self) == scroll_up_state(*old(self)),
    {
        if self.reader_view.show_themes {
            let i = match self.reader_view.theme_selected { Some(i) => i, None => 0 };
            self.reader_view.theme_selected = Some(if i > 0 { i - 1 } else { 0 });
        } else if self.mode == AppMode::Reader {
            if self.reader_view.show_bookmarks {
                let i = match self.reader_view.bookmark_selected { Some(i) => i, None => 0 };
                self.reader_view.bookmark_selected = Some(if i > 0 { i - 1 } else { 0 });
            } else if self.reader_view.show_toc {
                let i = match self.reader_view.toc_selected { Some(i) => i, None => 0 };
                self.reader_view.toc_selected = Some(if i > 0 { i - 1 } else { 0 });
            } else {
                let o = self.reader_view.scroll_offset;
                self.reader_view.scroll_offset = if o > 0 { o - 1 } else { 0 };
            }
        } else {
            let v = visible_indices(&self.library_books, &self.library_view);
            if v.len() > 0 {
                let i = match self.library_view.selected { Some(i) => i, None => 0 };
                self.library_view.selected = Some(if i > 0 { i - 1 } else { 0 });
            }
        }
    }

    fn page_rows_exec(&self) -> (r: usize)
        ensures
            r == page_rows(*self),
    {
        if self.reader_view.last_viewport_height == 0 { 1 } else { self.reader_view.last_viewport_height }
    }

    fn half_page_rows_exec(&self) -> (r: usize)
        ensures
            r == half_page_rows(*self),
    {
        let h = self.reader_view.last_viewport_height / 2;
        if h == 0 { 1 } else { h }
    }

    fn page_down(&mut self, rows: usize)
        requires
            old(self).wf(),
        ensures
            final(self).wf(),
            final(self).key_dispatcher == old(self).key_dispatcher,
            *final(self) == page_down_state(*old(self), rows as int),
    {
        if self.mode == AppMode::Reader {
            match &self.active_layout {
                Some(l) => {
                    let n = l.lines.len();
                    let last = if n > 0 { n - 1 } else { 0 };
                    let o = self.reader_view.scroll_offset;
                    let target = if o > last || rows > last - o { last } else { o + rows };
                    self.reader_view.scroll_offset = target;
                },
                None => {},
            }
        }
    }

    fn page_up(&mut self, rows: usize)
        requires
            old(self).wf(),
        ensures
            final(self).wf(),
            final(self).key_dispatcher == old(self).key_dispatcher,
            *final(self) == page_up_state(*old(self), rows as int),
    {
        if self.mode == AppMode::Reader {
            let o = self.reader_view.scroll_offset;
            self.reader_view.scroll_offset = if o >= rows { o - rows } else { 0 };
        }
    }
}


// ---------------------------------------------------------------------
// Layout of the open book

/// The lines of `b` laid out under the configuration of `s`.
pub open spec fn laid_out(b: Book, s: App) -> Seq<LineV> {
    build_lines(
        b.content@,
        s.config.typography,
        s.config.display.simplified_mode,
        s.config.display.respect_epub_css,
        b.content@.len() as int,
    ).0
}

/// The character offset of the line at the top of the reader (0 when the
/// reader is scrolled past the last line).
pub open spec fn reading_anchor(s: App) -> int {
    if s.active_layout is Some && s.reader_view.scroll_offset < line_count(s) {
        s.active_layout->0.lines@[s.reader_view.scroll_offset as int].char_start as int
    } else {
        0
    }
}

/// `t` is `s` with the open book laid out again under the configuration
/// of `s`, the reader kept at the same character offset.
pub open spec fn relaid(s: App, t: App) -> bool {
    if s.active_book is Some {
        &&& t.active_layout is Some
        &&& lviews(t.active_layout->0.lines@) == laid_out(s.active_book->0, s)
        &&& is_line_at(t.active_layout->0.lines@, reading_anchor(s), t.reader_view.scroll_offset as int)
        &&& t == App {
            active_layout: t.active_layout,
            reader_view: ReaderView { scroll_offset: t.reader_view.scroll_offset, ..s.reader_view },
            ..s
        }
    } else {
        t == s
    }
}

/// The character counts of `book` fit in a `usize`, so that it can be
/// laid out and indexed.
pub open spec fn book_fits(book: Book) -> bool {
    blocks_chars(book.content@, true) <= usize::MAX && blocks_chars(book.content@, false) <= usize::MAX
        && texts_len(blocks_texts(book.content@)) <= usize::MAX
}

/// `t` is `s` with `book` open in the reader at line `at`: laid out under
/// the configuration of `s` and indexed.
pub open spec fn loaded(s: App, book: Book, at: int, t: App) -> bool {
    &&& t.active_layout is Some
    &&& t.search_index is Some
    &&& lviews(t.active_layout->0.lines@) == laid_out(book, s)
    &&& t.search_index->0.wf()
    &&& string_views(t.search_index->0.blocks_text@) == blocks_texts(book.content@)
    &&& t == App {
        active_book: Some(book),
        active_layout: t.active_layout,
        search_index: t.search_index,
        mode: AppMode::Reader,
        reader_view: ReaderView { scroll_offset: at as usize, ..s.reader_view },
        ..s
    }
}

/// `t` is `s` with a message in the status bar.
pub open spec fn refused(s: App, t: App) -> bool {
    t.status_message is Some && t == App { status_message: t.status_message, ..s }
}

pub open spec fn with_status(s: App, m: String) -> App {
    App { status_message: Some(m), ..s }
}

pub open spec fn with_library(s: App, books: Vec<LibraryEntry>) -> App {
    App { library_books: books, ..s }
}

impl App {
    fn relayout(&mut self)
        requires
            old(self).wf(),
        ensures
            final(self).wf(),
            final(self).key_dispatcher == old(self).key_dispatcher,
            relaid(*old(self), *final(self)),
    {
        let anchor = match &self.active_layout {
            Some(l) => if self.reader_view.scroll_offset < l.lines.len() {
                l.lines[self.reader_view.scroll_offset].char_start
            } else {
                0
            },
            None => 0,
        };
        let layout = match &self.active_book {
            Some(b) => {
                let css = self.config.display.respect_epub_css;
                Some(BookLayout::build_with_css(b, &self.config.typography, self.config.display.simplified_mode, css))
            },
            None => None,
        };
        match layout {
            Some(l) => {
                let r = l.line_at_char_offset(anchor);
                let n = l.lines.len();
                assert(r < n || n == 0);
                self.active_layout = Some(l);
                self.reader_view.scroll_offset = r;
            },
            None => {},
        }
    }

    /// Opens `book` in the reader at line `saved_offset` (its saved
    /// progress): lays it out and indexes it. A book whose character counts
    /// do not fit in a `usize` is refused, with a message, and `false`.
    pub fn load_book(&mut self, book: Book, saved_offset: usize) -> (r: bool)
        requires
            old(self).wf(),
            saved_offset < usize::MAX,
        ensures
            final(self).wf(),
            r == book_fits(book),
            r ==> loaded(*old(self), book, saved_offset as int, *final(self)),
            !r ==> refused(*old(self), *final(self)),
    {
        let fits = match (blocks_char_count(&book.content, true), blocks_char_count(&book.content, false)) {
            (Some(_), Some(_)) => plain_text_char_count(&book.content).is_some(),
            _ => false,
        };
        if !fits {
            self.status_message = Some(owned("The book is too large to display."));
            return false;
        }
        let layout = BookLayout::build_with_css(
            &book,
            &self.config.typography,
            self.config.display.simplified_mode,
            self.config.display.respect_epub_css,
        );
        let index = BookSearchIndex::build(&book);
        self.active_book = Some(book);
        self.active_layout = Some(layout);
        self.search_index = Some(index);
        self.reader_view.scroll_offset = saved_offset;
        self.mode = AppMode::Reader;
        true
    }

    /// Shows the message of a failed operation in the status bar.
    pub fn report_error(&mut self, message: String)
        ensures
            *final(self) == with_status(*old(self), message),
    {
        self.status_message = Some(message);
    }

    /// Pastes clipboard text into the search, command or open-file line
    /// (see `pasted`); in other modes nothing changes.
    pub fn paste(&mut self, text: &str)
        requires
            old(self).wf(),
        ensures
            final(self).wf(),
            *final(self) == (App { input_buffer: final(self).input_buffer, ..*old(self) }),
            (old(self).mode == AppMode::SearchInput || old(self).mode == AppMode::CommandInput
                || old(self).mode == AppMode::OpenFileInput) ==> final(self).input_buffer@
                == old(self).input_buffer@ + pasted(text@),
            !(old(self).mode == AppMode::SearchInput || old(self).mode == AppMode::CommandInput
                || old(self).mode == AppMode::OpenFileInput) ==> final(self).input_buffer@
                == old(self).input_buffer@,
    {
        let input_line = match self.mode {
            AppMode::SearchInput | AppMode::CommandInput | AppMode::OpenFileInput => true,
            _ => false,
        };
        if !input_line {
            return;
        }
        let cs = chars_of(text);
        let mut buf = owned(self.input_buffer.as_str());
        let mut i: usize = 0;
        while i < cs.len()
            invariant
                i <= cs.len(),
                cs@ == text@,
                buf@ == old(self).input_buffer@ + pasted(cs@.take(i as int)),
            decreases cs.len() - i,
        {
            assert(cs@.take(i + 1).drop_last() =~= cs@.take(i as int));
            assert(cs@.take(i + 1).last() == cs@[i as int]);
            let c = cs[i];
            if c == '\n' {
                push_char(&mut buf, ' ');
            } else if c != '\r' {
                push_char(&mut buf, c);
            }
            i = i + 1;
        }
        assert(cs@.take(cs.len() as int) =~= cs@);
        self.input_buffer = buf;
    }

    /// Replaces the library list (as read from the database).
    pub fn set_library(&mut self, books: Vec<LibraryEntry>)
        requires
            old(self).wf(),
        ensures
            final(self).wf(),
            *final(self) == with_library(*old(self), books),
    {
        self.library_books = books;
    }
}


// ---------------------------------------------------------------------
// Search matches, bookmarks, selection, deletion, images

/// The reader scrolled to the line showing character `off`.
pub open spec fn scrolled_to_offset(s: App, t: App, off: int) -> bool {
    &&& s.active_layout is Some
    &&& is_line_at(s.active_layout->0.lines@, off, t.reader_view.scroll_offset as int)
    &&& t == scrolled_to(s, t.reader_view.scroll_offset as int)
}

/// `NextMatch` / `PrevMatch`: in the reader, the current match moves on
/// (wrapping around) and the reader scrolls to it.
pub open spec fn match_moved(s: App, t: App, forward: bool) -> bool {
    let n = s.search_matches@.len();
    if s.mode == AppMode::Reader && n > 0 {
        let i = if forward {
            (s.current_match_idx + 1) % (n as int)
        } else if s.current_match_idx == 0 {
            n - 1
        } else {
            s.current_match_idx - 1
        };
        let s1 = App { current_match_idx: i as usize, ..s };
        if s.active_layout is Some {
            scrolled_to_offset(s1, t, s.search_matches@[i].char_start as int)
        } else {
            t == s1
        }
    } else {
        t == s
    }
}

/// The text of a line's spans, one after the other.
pub open spec fn spans_text(spans: Seq<SpanV>) -> Seq<char>
    decreases spans.len(),
{
    if spans.len() == 0 {
        Seq::empty()
    } else {
        spans_text(spans.drop_last()) + spans.last().text
    }
}

/// How a bookmark shows a line's text: trimmed, cut to 47 characters and
/// `...` when longer than 50, `Empty line` when empty.
pub open spec fn preview(t: Seq<char>) -> Seq<char> {
    if t.len() > 50 {
        t.take(47) + "..."@
    } else if t.len() == 0 {
        "Empty line"@
    } else {
        t
    }
}

/// The label of a bookmark on line `idx` (from 0) of `lines`.
pub open spec fn bookmark_label(lines: Seq<WrappedLine>, idx: int) -> Seq<char> {
    if idx < lines.len() {
        "Line "@ + decimal((idx + 1) as nat) + ": \""@ + preview(trimmed(spans_text(sviews(lines[idx].spans@)))) + "\""@
    } else {
        "Line "@ + decimal((idx + 1) as nat)
    }
}

/// `AddBookmark`: in the reader, a bookmark of the top line is to be
/// stored, at the line's first character.
pub open spec fn bookmark_effect(s: App) -> EffectV {
    if s.mode == AppMode::Reader && s.active_book is Some && s.active_layout is Some {
        let lines = s.active_layout->0.lines@;
        let idx = s.reader_view.scroll_offset as int;
        EffectV::AddBookmark {
            book_id: s.active_book->0.id@,
            char_offset: if idx < lines.len() { lines[idx].char_start as int } else { 0 },
            label: bookmark_label(lines, idx),
        }
    } else {
        EffectV::Nothing
    }
}

fn spans_text_exec(spans: &Vec<StyledSpan>) -> (r: String)
    ensures
        r@ == spans_text(sviews(spans@)),
{
    let ghost sv = sviews(spans@);
    let mut r = String::new();
    let mut i: usize = 0;
    while i < spans.len()
        invariant
            i <= spans@.len(),
            sv == sviews(spans@),
            r@ == spans_text(sv.take(i as int)),
        decreases spans.len() - i,
    {
        assert(sv.take(i + 1).drop_last() =~= sv.take(i as int));
        r.append(spans[i].text.as_str());
        i = i + 1;
    }
    assert(sv.take(spans@.len() as int) =~= sv);
    r
}

fn bookmark_label_exec(lines: &Vec<WrappedLine>, idx: usize) -> (r: String)
    requires
        idx < usize::MAX,
    ensures
        r@ == bookmark_label(lines@, idx as int),
{
    let mut r = owned("Line ");
    let n = decimal_string(idx + 1);
    r.append(n.as_str());
    if idx < lines.len() {
        let full = spans_text_exec(&lines[idx].spans);
        let t = trim_chars(full.as_str());
        let p = if t.len() > 50 {
            let mut p = string_of_range(&t, 0, 47);
            p.append("...");
            assert(t@.subrange(0, 47) =~= t@.take(47));
            p
        } else if t.len() == 0 {
            owned("Empty line")
        } else {
            string_from_chars(t.as_slice())
        };
        r.append(": \"");
        r.append(p.as_str());
        r.append("\"");
    }
    r
}

/// `Select`: picks the theme under the cursor of the theme picker, opens
/// the selected book of the library, jumps to the selected entry of the
/// contents or to the selected bookmark, closing the window.
pub open spec fn select_post(s: App, t: App, e: EffectV) -> bool {
    let rv = s.reader_view;
    if rv.show_themes {
        let i = sel(rv.theme_selected);
        let s1 = App { reader_view: ReaderView { show_themes: false, ..rv }, ..s };
        &&& e == EffectV::Nothing
        &&& if i < 7 {
            &&& t.config.theme@ == theme_names()[i]
            &&& (theme_for_name(lowercase(theme_names()[i])) matches Some(k) ==> t.theme.is_kind(k))
            &&& t == App { config: Config { theme: t.config.theme, ..s.config }, theme: t.theme, ..s1 }
        } else {
            t == s1
        }
    } else if s.mode == AppMode::Library && listing(
        s.library_books@,
        s.library_view.sort_mode,
        s.library_view.filter@,
    ).len() > 0 {
        let l = listing(s.library_books@, s.library_view.sort_mode, s.library_view.filter@);
        let i = sel(s.library_view.selected);
        &&& t == s
        &&& e == if i < l.len() {
            EffectV::OpenLibraryBook { path: s.library_books@[l[i] as int].file_path@ }
        } else {
            EffectV::Nothing
        }
    } else if s.mode == AppMode::Reader && rv.show_toc {
        let s1 = App { reader_view: ReaderView { show_toc: false, ..rv }, ..s };
        let i = sel(rv.toc_selected);
        &&& e == EffectV::Nothing
        &&& if s.active_book is Some && i < s.active_book->0.toc@.len() && s.active_layout is Some {
            scrolled_to_offset(s1, t, s.active_book->0.toc@[i].block_index as int)
        } else {
            t == s1
        }
    } else if s.mode == AppMode::Reader && rv.show_bookmarks {
        let s1 = App { reader_view: ReaderView { show_bookmarks: false, ..rv }, ..s };
        let i = sel(rv.bookmark_selected);
        &&& e == EffectV::Nothing
        &&& if i < rv.bookmark_items@.len() && s.active_layout is Some {
            scrolled_to_offset(s1, t, rv.bookmark_items@[i].char_offset as int)
        } else {
            t == s1
        }
    } else {
        t == s && e == EffectV::Nothing
    }
}

/// The selection after the entry at `i` of a list of `n` entries is
/// removed: it moves up when it stood on the last entry.
pub open spec fn after_removal(o: Option<usize>, i: int, n: int) -> Option<usize> {
    if i > 0 && i + 1 == n {
        Some((i - 1) as usize)
    } else {
        o
    }
}

/// `Delete`: removes the selected bookmark (bookmark window) or the
/// selected book of the library list.
pub open spec fn delete_post(s: App, t: App, e: EffectV) -> bool {
    let rv = s.reader_view;
    if s.mode == AppMode::Reader && rv.show_bookmarks {
        let i = sel(rv.bookmark_selected);
        let n = rv.bookmark_items@.len() as int;
        if i < n {
            &&& e == EffectV::DeleteBookmark { bookmark_id: rv.bookmark_items@[i].id@ }
            &&& t.reader_view.bookmark_items@ == rv.bookmark_items@.remove(i)
            &&& t == App {
                reader_view: ReaderView {
                    bookmark_items: t.reader_view.bookmark_items,
                    bookmark_selected: after_removal(rv.bookmark_selected, i, n),
                    ..rv
                },
                ..s
            }
        } else {
            t == s && e == EffectV::Nothing
        }
    } else if s.mode == AppMode::Library {
        let l = listing(s.library_books@, s.library_view.sort_mode, s.library_view.filter@);
        let i = sel(s.library_view.selected);
        if i < l.len() {
            let gone = s.library_books@[l[i] as int];
            &&& e == EffectV::DeleteBook { book_id: gone.id@ }
            &&& t.library_books@ == s.library_books@.remove(l[i] as int)
            &&& t.status_message matches Some(m) && m@ == "Deleted '"@ + gone.title@ + "'"@
            &&& t == App {
                library_books: t.library_books,
                status_message: t.status_message,
                library_view: LibraryView {
                    selected: after_removal(s.library_view.selected, i, l.len() as int),
                    ..s.library_view
                },
                ..s
            }
        } else {
            t == s && e == EffectV::Nothing
        }
    } else {
        t == s && e == EffectV::Nothing
    }
}

pub open spec fn next_sort(m: LibrarySortMode) -> LibrarySortMode {
    match m {
        LibrarySortMode::Recent => LibrarySortMode::Title,
        LibrarySortMode::Title => LibrarySortMode::Author,
        LibrarySortMode::Author => LibrarySortMode::Recent,
    }
}

/// `ViewImage`: the image of the top line of the reader is shown; a line
/// without an image says so in the status bar.
pub open spec fn view_image_post(s: App, t: App, e: EffectV) -> bool {
    if s.mode == AppMode::Reader && s.active_layout is Some {
        let lines = s.active_layout->0.lines@;
        let idx = s.reader_view.scroll_offset as int;
        if idx < lines.len() && lines[idx].image_key is Some {
            let k = lines[idx].image_key->0;
            &&& e == EffectV::ShowImage { key: k@ }
            &&& t.reader_view.current_image_key matches Some(c) && c@ == k@
            &&& t == App {
                reader_view: ReaderView {
                    show_image: true,
                    current_image_key: t.reader_view.current_image_key,
                    ..s.reader_view
                },
                ..s
            }
        } else {
            &&& e == EffectV::Nothing
            &&& t.status_message matches Some(m) && m@ == "No image on the current line."@
            &&& t == App { status_message: t.status_message, ..s }
        }
    } else {
        t == s && e == EffectV::Nothing
    }
}

impl App {
    fn move_match(&mut self, forward: bool)
        requires
            old(self).wf(),
        ensures
            final(self).wf(),
            final(self).key_dispatcher == old(self).key_dispatcher,
            match_moved(*old(self), *final(self), forward),
    {
        let n = self.search_matches.len();
        if self.mode == AppMode::Reader && n > 0 {
            let i = if forward {
                (self.current_match_idx + 1) % n
            } else if self.current_match_idx == 0 {
                n - 1
            } else {
                self.current_match_idx - 1
            };
            self.current_match_idx = i;
            let off = self.search_matches[i].char_start;
            match &self.active_layout {
                Some(l) => {
                    let r = l.line_at_char_offset(off);
                    let ln = l.lines.len();
                    assert(r < ln || ln == 0);
                    self.reader_view.scroll_offset = r;
                },
                None => {},
            }
        }
    }

    fn add_bookmark(&self) -> (e: Effect)
        requires
            self.wf(),
        ensures
            e@ == bookmark_effect(*self),
    {
        if self.mode == AppMode::Reader {
            match (&self.active_book, &self.active_layout) {
                (Some(b), Some(l)) => {
                    let idx = self.reader_view.scroll_offset;
                    let off = if idx < l.lines.len() { l.lines[idx].char_start } else { 0 };
                    let label = bookmark_label_exec(&l.lines, idx);
                    return Effect::AddBookmark { book_id: owned(b.id.as_str()), char_offset: off, label };
                },
                _ => {},
            }
        }
        Effect::Nothing
    }

    #[verifier::rlimit(60)]
    fn select(&mut self) -> (e: Effect)
        requires
            old(self).wf(),
        ensures
            final(self).wf(),
            final(self).key_dispatcher == old(self).key_dispatcher,
            select_post(*old(self), *final(self), e@),
    {
        if self.reader_view.show_themes {
            let i = match self.reader_view.theme_selected { Some(i) => i, None => 0 };
            match theme_name(i) {
                Some(name) => {
                    self.config.theme = owned(name);
                    self.theme = Theme::get_by_name(name, self.desktop_light);
                },
                None => {},
            }
            self.reader_view.show_themes = false;
            Effect::Nothing
        } else if self.mode == AppMode::Library && visible_indices(&self.library_books, &self.library_view).len() > 0 {
            let v = visible_indices(&self.library_books, &self.library_view);
            let i = match self.library_view.selected { Some(i) => i, None => 0 };
            if i < v.len() {
                Effect::OpenLibraryBook { path: owned(self.library_books[v[i]].file_path.as_str()) }
            } else {
                Effect::Nothing
            }
        } else if self.mode == AppMode::Reader && self.reader_view.show_toc {
            self.reader_view.show_toc = false;
            let i = match self.reader_view.toc_selected { Some(i) => i, None => 0 };
            let target = match &self.active_book {
                Some(b) => if i < b.toc.len() { Some(b.toc[i].block_index) } else { None },
                None => None,
            };
            match (target, &self.active_layout) {
                (Some(off), Some(l)) => {
                    let r = l.line_at_char_offset(off);
                    let ln = l.lines.len();
                    assert(r < ln || ln == 0);
                    self.reader_view.scroll_offset = r;
                },
                _ => {},
            }
            Effect::Nothing
        } else if self.mode == AppMode::Reader && self.reader_view.show_bookmarks {
            self.reader_view.show_bookmarks = false;
            let i = match self.reader_view.bookmark_selected { Some(i) => i, None => 0 };
            let target = if i < self.reader_view.bookmark_items.len() {
                Some(self.reader_view.bookmark_items[i].char_offset)
            } else {
                None
            };
            match (target, &self.active_layout) {
                (Some(off), Some(l)) => {
                    let r = l.line_at_char_offset(off);
                    let ln = l.lines.len();
                    assert(r < ln || ln == 0);
                    self.reader_view.scroll_offset = r;
                },
                _ => {},
            }
            Effect::Nothing
        } else {
            Effect::Nothing
        }
    }

    #[verifier::rlimit(60)]
    fn delete(&mut self) -> (e: Effect)
        requires
            old(self).wf(),
        ensures
            final(self).wf(),
            final(self).key_dispatcher == old(self).key_dispatcher,
            delete_post(*old(self), *final(self), e@),
    {
        if self.mode == AppMode::Reader && self.reader_view.show_bookmarks {
            let i = match self.reader_view.bookmark_selected { Some(i) => i, None => 0 };
            let n = self.reader_view.bookmark_items.len();
            if i < n {
                let gone = self.reader_view.bookmark_items.remove(i);
                if i > 0 && i + 1 == n {
                    self.reader_view.bookmark_selected = Some(i - 1);
                }
                Effect::DeleteBookmark { bookmark_id: gone.id }
            } else {
                Effect::Nothing
            }
        } else if self.mode == AppMode::Library {
            let v = visible_indices(&self.library_books, &self.library_view);
            let i = match self.library_view.selected { Some(i) => i, None => 0 };
            if i < v.len() {
                let gone = self.library_books.remove(v[i]);
                let mut m = owned("Deleted '");
                m.append(gone.title.as_str());
                m.append("'");
                self.status_message = Some(m);
                if i > 0 && i + 1 == v.len() {
                    self.library_view.selected = Some(i - 1);
                }
                Effect::DeleteBook { book_id: gone.id }
            } else {
                Effect::Nothing
            }
        } else {
            Effect::Nothing
        }
    }

    fn view_image(&mut self) -> (e: Effect)
        requires
            old(self).wf(),
        ensures
            final(self).wf(),
            final(self).key_dispatcher == old(self).key_dispatcher,
            view_image_post(*old(self), *final(self), e@),
    {
        if self.mode == AppMode::Reader {
            let key: Option<String> = match &self.active_layout {
                Some(l) => {
                    let idx = self.reader_view.scroll_offset;
                    if idx < l.lines.len() {
                        match &l.lines[idx].image_key {
                            Some(k) => Some(owned(k.as_str())),
                            None => None,
                        }
                    } else {
                        None
                    }
                },
                None => {
                    return Effect::Nothing;
                },
            };
            match key {
                Some(k) => {
                    self.reader_view.show_image = true;
                    self.reader_view.current_image_key = Some(owned(k.as_str()));
                    Effect::ShowImage { key: k }
                },
                None => {
                    self.status_message = Some(owned("No image on the current line."));
                    Effect::Nothing
                },
            }
        } else {
            Effect::Nothing
        }
    }

    /// The bookmarks of the open book, fetched for `LoadBookmarks`: the
    /// bookmark window toggles, showing them, the first one selected when
    /// nothing was.
    pub fn bookmarks_loaded(&mut self, items: Vec<Bookmark>)
        requires
            old(self).wf(),
        ensures
            final(self).wf(),
            *final(self) == bookmarks_shown(*old(self), items),
    {
        let empty = items.len() == 0;
        self.reader_view.bookmark_items = items;
        if !empty && self.reader_view.bookmark_selected.is_none() {
            self.reader_view.bookmark_selected = Some(0);
        }
        self.reader_view.show_bookmarks = !self.reader_view.show_bookmarks;
    }
}

pub open spec fn bookmarks_shown(s: App, items: Vec<Bookmark>) -> App {
    App {
        reader_view: ReaderView {
            bookmark_items: items,
            bookmark_selected: if items@.len() > 0 && s.reader_view.bookmark_selected is None {
                Some(0usize)
            } else {
                s.reader_view.bookmark_selected
            },
            show_bookmarks: !s.reader_view.show_bookmarks,
            ..s.reader_view
        },
        ..s
    }
}


// ---------------------------------------------------------------------
// Dispatch of actions

/// An input line opened in mode `m`, empty.
pub open spec fn input_started(s: App, t: App, m: AppMode) -> bool {
    t.input_buffer@.len() == 0 && t == App { input_buffer: t.input_buffer, mode: m, ..s }
}

/// `Search`: the reader asks for a query; the library asks for a new
/// filter of its list.
pub open spec fn search_started(s: App, t: App) -> bool {
    if s.mode == AppMode::Reader {
        input_started(s, t, AppMode::SearchInput)
    } else if s.mode == AppMode::Library {
        &&& t.input_buffer@.len() == 0
        &&& t.library_view.filter@.len() == 0
        &&& t == App {
            input_buffer: t.input_buffer,
            mode: AppMode::FilterInput,
            library_view: LibraryView { filter: t.library_view.filter, ..s.library_view },
            ..s
        }
    } else {
        t == s
    }
}

pub open spec fn with_simplified_toggled(s: App) -> App {
    App {
        config: Config {
            display: DisplayConfig { simplified_mode: !s.config.display.simplified_mode, ..s.config.display },
            ..s.config
        },
        ..s
    }
}

pub open spec fn with_css_toggled(s: App) -> App {
    App {
        config: Config {
            display: DisplayConfig { respect_epub_css: !s.config.display.respect_epub_css, ..s.config.display },
            ..s.config
        },
        ..s
    }
}

pub open spec fn with_widescreen_toggled(s: App) -> App {
    App {
        config: Config {
            display: DisplayConfig { widescreen: !s.config.display.widescreen, ..s.config.display },
            ..s.config
        },
        ..s
    }
}

pub open spec fn with_justify_toggled(s: App) -> App {
    App {
        config: Config {
            typography: TypographyConfig { justified: !s.config.typography.justified, ..s.config.typography },
            ..s.config
        },
        ..s
    }
}

/// What each action does to the state `s`, giving `t` and the effect `e`.
pub open spec fn action_post(s: App, a: KeyAction, t: App, e: EffectV) -> bool {
    let reader = s.mode == AppMode::Reader;
    let rv = s.reader_view;
    match a {
        KeyAction::ScrollDown => t == scroll_down_state(s) && e == EffectV::Nothing,
        KeyAction::ScrollUp => t == scroll_up_state(s) && e == EffectV::Nothing,
        KeyAction::PageDown => t == page_down_state(s, page_rows(s)) && e == EffectV::Nothing,
        KeyAction::PageUp => t == page_up_state(s, page_rows(s)) && e == EffectV::Nothing,
        KeyAction::HalfPageDown => t == page_down_state(s, half_page_rows(s)) && e == EffectV::Nothing,
        KeyAction::HalfPageUp => t == page_up_state(s, half_page_rows(s)) && e == EffectV::Nothing,
        KeyAction::GotoTop => t == (if reader { scrolled_to(s, 0) } else { s }) && e == EffectV::Nothing,
        KeyAction::GotoBottom => t == (if reader && s.active_layout is Some {
            scrolled_to(s, sat_sub(line_count(s), 1))
        } else {
            s
        }) && e == EffectV::Nothing,
        KeyAction::Search => search_started(s, t) && e == EffectV::Nothing,
        KeyAction::NextMatch => match_moved(s, t, true) && e == EffectV::Nothing,
        KeyAction::PrevMatch => match_moved(s, t, false) && e == EffectV::Nothing,
        KeyAction::OpenFile => input_started(s, t, AppMode::OpenFileInput) && e == EffectV::Nothing,
        KeyAction::SaveToLibrary => t == s && e == progress_of(s),
        KeyAction::AddBookmark => t == s && e == bookmark_effect(s),
        KeyAction::ListBookmarks => t == s && e == (if reader && s.active_book is Some {
            EffectV::LoadBookmarks { book_id: s.active_book->0.id@ }
        } else {
            EffectV::Nothing
        }),
        KeyAction::Toc => t == (if reader {
            App { reader_view: ReaderView { show_toc: !rv.show_toc, ..rv }, ..s }
        } else {
            s
        }) && e == EffectV::Nothing,
        KeyAction::Info => t == (if reader {
            App { reader_view: ReaderView { show_info: !rv.show_info, ..rv }, ..s }
        } else {
            s
        }) && e == EffectV::Nothing,
        KeyAction::Help => t == App { reader_view: ReaderView { show_help: !rv.show_help, ..rv }, ..s }
            && e == EffectV::Nothing,
        KeyAction::Quit => t == quit_state(s) && e == (if reader { progress_of(s) } else { EffectV::Nothing }),
        KeyAction::Command => input_started(App { command_origin: s.mode, ..s }, t, AppMode::CommandInput)
            && e == EffectV::Nothing,
        KeyAction::ToggleSimpleMode => relaid(with_simplified_toggled(s), t) && e == EffectV::Nothing,
        KeyAction::ToggleCss => relaid(with_css_toggled(s), t) && e == EffectV::Nothing,
        KeyAction::ToggleJustify => relaid(with_justify_toggled(s), t) && e == EffectV::Nothing,
        KeyAction::ToggleWidescreen => relaid(with_widescreen_toggled(s), t) && e == EffectV::Nothing,
        KeyAction::Select => select_post(s, t, e),
        KeyAction::Delete => delete_post(s, t, e),
        KeyAction::CycleSort => t == (if s.mode == AppMode::Library {
            App { library_view: LibraryView { sort_mode: next_sort(s.library_view.sort_mode), ..s.library_view }, ..s }
        } else {
            s
        }) && e == EffectV::Nothing,
        KeyAction::ViewImage => view_image_post(s, t, e),
    }
}

impl App {
    fn start_input(&mut self, m: AppMode)
        requires
            old(self).wf(),
        ensures
            final(self).wf(),
            final(self).key_dispatcher == old(self).key_dispatcher,
            input_started(*old(self), *final(self), m),
    {
        self.input_buffer = String::new();
        self.mode = m;
    }

    #[verifier::rlimit(60)]
    fn handle_motion(&mut self, action: KeyAction) -> (e: Effect)
        requires
            old(self).wf(),
            action == KeyAction::ScrollDown || action == KeyAction::ScrollUp || action == KeyAction::PageDown || action == KeyAction::PageUp || action == KeyAction::HalfPageDown || action == KeyAction::HalfPageUp || action == KeyAction::GotoTop || action == KeyAction::GotoBottom || action == KeyAction::NextMatch || action == KeyAction::PrevMatch,
        ensures
            final(self).wf(),
            final(self).key_dispatcher == old(self).key_dispatcher,
            action_post(*old(self), action, *final(self), e@),
    {
        let reader = self.mode == AppMode::Reader;
        match action {
            KeyAction::ScrollDown => {
                self.scroll_down();
                Effect::Nothing
            },
            KeyAction::ScrollUp => {
                self.scroll_up();
                Effect::Nothing
            },
            KeyAction::PageDown => {
                let rows = self.page_rows_exec();
                self.page_down(rows);
                Effect::Nothing
            },
            KeyAction::PageUp => {
                let rows = self.page_rows_exec();
                self.page_up(rows);
                Effect::Nothing
            },
            KeyAction::HalfPageDown => {
                let rows = self.half_page_rows_exec();
                self.page_down(rows);
                Effect::Nothing
            },
            KeyAction::HalfPageUp => {
                let rows = self.half_page_rows_exec();
                self.page_up(rows);
                Effect::Nothing
            },
            KeyAction::GotoTop => {
                if reader {
                    self.reader_view.scroll_offset = 0;
                }
                Effect::Nothing
            },
            KeyAction::GotoBottom => {
                if reader {
                    match &self.active_layout {
                        Some(l) => {
                            let n = l.lines.len();
                            self.reader_view.scroll_offset = if n > 0 { n - 1 } else { 0 };
                        },
                        None => {},
                    }
                }
                Effect::Nothing
            },
            KeyAction::NextMatch => {
                self.move_match(true);
                Effect::Nothing
            },
            KeyAction::PrevMatch => {
                self.move_match(false);
                Effect::Nothing
            },
            _ => Effect::Nothing,
        }
    }

    #[verifier::rlimit(60)]
    fn handle_windows(&mut self, action: KeyAction) -> (e: Effect)
        requires
            old(self).wf(),
            action == KeyAction::Search || action == KeyAction::OpenFile || action == KeyAction::SaveToLibrary || action == KeyAction::AddBookmark || action == KeyAction::ListBookmarks || action == KeyAction::Toc || action == KeyAction::Info || action == KeyAction::Help || action == KeyAction::Quit || action == KeyAction::Command,
        ensures
            final(self).wf(),
            final(self).key_dispatcher == old(self).key_dispatcher,
            action_post(*old(self), action, *final(self), e@),
    {
        let reader = self.mode == AppMode::Reader;
        match action {
            KeyAction::Search => {
                if reader {
                    self.start_input(AppMode::SearchInput);
                } else if self.mode == AppMode::Library {
                    self.input_buffer = String::new();
                    self.library_view.filter = String::new();
                    self.mode = AppMode::FilterInput;
                }
                Effect::Nothing
            },
            KeyAction::OpenFile => {
                self.start_input(AppMode::OpenFileInput);
                Effect::Nothing
            },
            KeyAction::SaveToLibrary => self.progress_effect(),
            KeyAction::AddBookmark => self.add_bookmark(),
            KeyAction::ListBookmarks => {
                if reader {
                    match &self.active_book {
                        Some(b) => {
                            return Effect::LoadBookmarks { book_id: owned(b.id.as_str()) };
                        },
                        None => {},
                    }
                }
                Effect::Nothing
            },
            KeyAction::Toc => {
                if reader {
                    self.reader_view.show_toc = !self.reader_view.show_toc;
                }
                Effect::Nothing
            },
            KeyAction::Info => {
                if reader {
                    self.reader_view.show_info = !self.reader_view.show_info;
                }
                Effect::Nothing
            },
            KeyAction::Help => {
                self.reader_view.show_help = !self.reader_view.show_help;
                Effect::Nothing
            },
            KeyAction::Quit => self.quit(),
            KeyAction::Command => {
                self.command_origin = self.mode;
                self.start_input(AppMode::CommandInput);
                Effect::Nothing
            },
            _ => Effect::Nothing,
        }
    }

    #[verifier::rlimit(60)]
    fn handle_settings(&mut self, action: KeyAction) -> (e: Effect)
        requires
            old(self).wf(),
            action == KeyAction::ToggleSimpleMode || action == KeyAction::ToggleCss || action == KeyAction::ToggleJustify || action == KeyAction::ToggleWidescreen || action == KeyAction::CycleSort,
        ensures
            final(self).wf(),
            final(self).key_dispatcher == old(self).key_dispatcher,
            action_post(*old(self), action, *final(self), e@),
    {
        let reader = self.mode == AppMode::Reader;
        match action {
            KeyAction::ToggleSimpleMode => {
                self.config.display.simplified_mode = !self.config.display.simplified_mode;
                self.relayout();
                Effect::Nothing
            },
            KeyAction::ToggleCss => {
                self.config.display.respect_epub_css = !self.config.display.respect_epub_css;
                self.relayout();
                Effect::Nothing
            },
            KeyAction::ToggleJustify => {
                self.config.typography.justified = !self.config.typography.justified;
                self.relayout();
                Effect::Nothing
            },
            KeyAction::ToggleWidescreen => {
                self.config.display.widescreen = !self.config.display.widescreen;
                self.relayout();
                Effect::Nothing
            },
            KeyAction::CycleSort => {
                if self.mode == AppMode::Library {
                    self.library_view.sort_mode = match self.library_view.sort_mode {
                        LibrarySortMode::Recent => LibrarySortMode::Title,
                        LibrarySortMode::Title => LibrarySortMode::Author,
                        LibrarySortMode::Author => LibrarySortMode::Recent,
                    };
                }
                Effect::Nothing
            },
            _ => Effect::Nothing,
        }
    }

    #[verifier::rlimit(60)]
    fn handle_choice(&mut self, action: KeyAction) -> (e: Effect)
        requires
            old(self).wf(),
            action == KeyAction::Select || action == KeyAction::Delete || action == KeyAction::ViewImage,
        ensures
            final(self).wf(),
            final(self).key_dispatcher == old(self).key_dispatcher,
            action_post(*old(self), action, *final(self), e@),
    {
        let reader = self.mode == AppMode::Reader;
        match action {
            KeyAction::Select => self.select(),
            KeyAction::Delete => self.delete(),
            KeyAction::ViewImage => self.view_image(),
            _ => Effect::Nothing,
        }
    }

    /// Carries out `action`; see `action_post`.
    pub fn handle_action(&mut self, action: KeyAction) -> (e: Effect)
        requires
            old(self).wf(),
        ensures
            final(self).wf(),
            final(self).key_dispatcher == old(self).key_dispatcher,
            action_post(*old(self), action, *final(self), e@),
    {
        match action {
            KeyAction::ScrollDown | KeyAction::ScrollUp | KeyAction::PageDown | KeyAction::PageUp | KeyAction::HalfPageDown | KeyAction::HalfPageUp | KeyAction::GotoTop | KeyAction::GotoBottom | KeyAction::NextMatch | KeyAction::PrevMatch => self.handle_motion(action),
            KeyAction::Search | KeyAction::OpenFile | KeyAction::SaveToLibrary | KeyAction::AddBookmark | KeyAction::ListBookmarks | KeyAction::Toc | KeyAction::Info | KeyAction::Help | KeyAction::Quit | KeyAction::Command => self.handle_windows(action),
            KeyAction::ToggleSimpleMode | KeyAction::ToggleCss | KeyAction::ToggleJustify | KeyAction::ToggleWidescreen | KeyAction::CycleSort => self.handle_settings(action),
            KeyAction::Select | KeyAction::Delete | KeyAction::ViewImage => self.handle_choice(action),
        }
    }
}


// ---------------------------------------------------------------------
// Input lines

/// The input line after a key press that edits it: `Backspace` removes
/// the last character, a character is appended.
pub open spec fn edited(buf: Seq<char>, code: KeyCode) -> Seq<char> {
    match code {
        KeyCode::Backspace => if buf.len() > 0 { buf.drop_last() } else { buf },
        KeyCode::Char(c) => buf.push(c),
        _ => buf,
    }
}

/// The mode the reader falls back to from an input line.
pub open spec fn home_mode(s: App) -> AppMode {
    if s.active_book is Some {
        AppMode::Reader
    } else {
        AppMode::Library
    }
}

fn pop_char(s: &String) -> (r: String)
    ensures
        r@ == (if s@.len() > 0 { s@.drop_last() } else { s@ }),
{
    let cs = chars_of(s.as_str());
    if cs.len() == 0 {
        return owned(s.as_str());
    }
    let r = string_of_range(&cs, 0, cs.len() - 1);
    assert(cs@.subrange(0, cs@.len() - 1) =~= cs@.drop_last());
    r
}

fn edit_line(buf: &String, code: KeyCode) -> (r: String)
    ensures
        r@ == edited(buf@, code),
{
    match code {
        KeyCode::Backspace => pop_char(buf),
        KeyCode::Char(c) => {
            let mut r = owned(buf.as_str());
            push_char(&mut r, c);
            r
        },
        _ => owned(buf.as_str()),
    }
}

/// The history position and input line after `Up` (`Some`), or nothing
/// (`None`) when the history is empty.
pub open spec fn recalled_up(n: int, idx: Option<usize>) -> Option<int> {
    if n == 0 {
        None
    } else {
        Some(
            match idx {
                None => n - 1,
                Some(i) => sat_sub(i as int, 1),
            },
        )
    }
}

/// `OpenFileInput`: `Enter` asks for the trimmed line to be opened,
/// `Esc` gives up; other keys edit the line.
pub open spec fn open_input_post(s: App, code: KeyCode, t: App, e: EffectV) -> bool {
    match code {
        KeyCode::Enter => {
            &&& e == EffectV::OpenUri { uri: trimmed(s.input_buffer@) }
            &&& input_started(s, t, s.mode)
        },
        KeyCode::Esc => e == EffectV::Nothing && input_started(s, t, home_mode(s)),
        _ => {
            &&& e == EffectV::Nothing
            &&& t.input_buffer@ == edited(s.input_buffer@, code)
            &&& t == App { input_buffer: t.input_buffer, ..s }
        },
    }
}

/// `FilterInput`: the line is the filter of the library list, updated as
/// it is typed; `Enter` keeps it, `Esc` drops it.
pub open spec fn filter_input_post(s: App, code: KeyCode, t: App) -> bool {
    match code {
        KeyCode::Enter => t == App { mode: AppMode::Library, ..s },
        KeyCode::Esc => {
            &&& t.input_buffer@.len() == 0
            &&& t.library_view.filter@.len() == 0
            &&& t == App {
                input_buffer: t.input_buffer,
                mode: AppMode::Library,
                library_view: LibraryView { filter: t.library_view.filter, ..s.library_view },
                ..s
            }
        },
        _ => {
            &&& t.input_buffer@ == edited(s.input_buffer@, code)
            &&& t.library_view.filter@ == edited(s.input_buffer@, code)
            &&& t == App {
                input_buffer: t.input_buffer,
                library_view: LibraryView { filter: t.library_view.filter, ..s.library_view },
                ..s
            }
        },
    }
}

pub open spec fn open_failed_state(s: App, message: String) -> App {
    App {
        status_message: Some(message),
        mode: if s.mode == AppMode::OpenFileInput { home_mode(s) } else { s.mode },
        ..s
    }
}

impl App {
    fn open_input_key(&mut self, code: KeyCode) -> (e: Effect)
        requires
            old(self).wf(),
        ensures
            final(self).wf(),
            open_input_post(*old(self), code, *final(self), e@),
    {
        match code {
            KeyCode::Enter => {
                let t = trim_chars(self.input_buffer.as_str());
                self.input_buffer = String::new();
                Effect::OpenUri { uri: string_from_chars(t.as_slice()) }
            },
            KeyCode::Esc => {
                self.input_buffer = String::new();
                self.mode = if self.active_book.is_some() { AppMode::Reader } else { AppMode::Library };
                Effect::Nothing
            },
            _ => {
                self.input_buffer = edit_line(&self.input_buffer, code);
                Effect::Nothing
            },
        }
    }

    fn filter_input_key(&mut self, code: KeyCode)
        requires
            old(self).wf(),
        ensures
            final(self).wf(),
            filter_input_post(*old(self), code, *final(self)),
    {
        match code {
            KeyCode::Enter => {
                self.mode = AppMode::Library;
            },
            KeyCode::Esc => {
                self.input_buffer = String::new();
                self.library_view.filter = String::new();
                self.mode = AppMode::Library;
            },
            _ => {
                let line = edit_line(&self.input_buffer, code);
                self.library_view.filter = owned(line.as_str());
                self.input_buffer = line;
            },
        }
    }

    /// Opening a book asked for by `OpenUri` failed: the message is shown
    /// and the input line is left for the reader or the library.
    pub fn open_failed(&mut self, message: String)
        requires
            old(self).wf(),
        ensures
            final(self).wf(),
            *final(self) == open_failed_state(*old(self), message),
    {
        self.status_message = Some(message);
        if self.mode == AppMode::OpenFileInput {
            self.mode = if self.active_book.is_some() { AppMode::Reader } else { AppMode::Library };
        }
    }
}


// ---------------------------------------------------------------------
// Search and command lines with their histories

fn copy_string(s: &String) -> (r: String)
    ensures
        r@ == s@,
{
    owned(s.as_str())
}

fn recall_up(h: &Vec<String>, idx: Option<usize>) -> (r: Option<(usize, String)>)
    requires
        idx matches Some(i) ==> i < h@.len(),
    ensures
        recalled_up(h@.len() as int, idx) is None ==> r is None,
        recalled_up(h@.len() as int, idx) matches Some(i) ==> (r matches Some(p) && p.0 == i && p.1@
            == h@[i]@),
{
    let n = h.len();
    if n == 0 {
        return None;
    }
    let i = match idx {
        None => n - 1,
        Some(i) => if i > 0 { i - 1 } else { 0 },
    };
    Some((i, copy_string(&h[i])))
}

/// `Down` in a history at `idx`: the next entry, or the empty line past
/// the newest one; `None` (no change) when not in the history.
pub open spec fn recalled_down(h: Seq<Seq<char>>, idx: Option<usize>) -> Option<(Option<usize>, Seq<char>)> {
    match idx {
        None => None,
        Some(i) => if i + 1 < h.len() {
            Some((Some((i + 1) as usize), h[i + 1]))
        } else {
            Some((None, Seq::empty()))
        },
    }
}

fn recall_down(h: &Vec<String>, idx: Option<usize>) -> (r: Option<(Option<usize>, String)>)
    ensures
        recalled_down(string_views(h@), idx) is None ==> r is None,
        recalled_down(string_views(h@), idx) matches Some(p) ==> (r matches Some(q) && q.0 == p.0 && q.1@ == p.1),
{
    match idx {
        None => None,
        Some(i) => {
            let n = h.len();
            if n > 0 && i < n - 1 {
                Some((Some(i + 1), copy_string(&h[i + 1])))
            } else {
                Some((None, String::new()))
            }
        },
    }
}

/// The history after a line is entered: the line is added unless it is
/// blank or repeats the newest entry.
pub open spec fn remembered(h: Seq<Seq<char>>, line: Seq<char>) -> Seq<Seq<char>> {
    if trimmed(line).len() > 0 && !(h.len() > 0 && h.last() == line) {
        h.push(line)
    } else {
        h
    }
}

fn remember(h: &mut Vec<String>, line: &String)
    ensures
        string_views(final(h)@) == remembered(string_views(old(h)@), line@),
{
    let t = trim_chars(line.as_str());
    let n = h.len();
    let repeat = n > 0 && str_eq(h[n - 1].as_str(), line.as_str());
    if t.len() > 0 && !repeat {
        let ghost before = string_views(h@);
        h.push(copy_string(line));
        assert(string_views(h@) =~= before.push(line@));
    }
}

/// `Up`/`Down` in the search line walk its history; other keys edit it.
pub open spec fn search_history_post(s: App, code: KeyCode, t: App) -> bool {
    let hv = string_views(s.search_history@);
    match code {
        KeyCode::Up => match recalled_up(hv.len() as int, s.search_history_idx) {
            None => t == s,
            Some(i) => t.input_buffer@ == hv[i] && t == App {
                input_buffer: t.input_buffer,
                search_history_idx: Some(i as usize),
                ..s
            },
        },
        KeyCode::Down => match recalled_down(hv, s.search_history_idx) {
            None => t == s,
            Some(p) => t.input_buffer@ == p.1 && t == App {
                input_buffer: t.input_buffer,
                search_history_idx: p.0,
                ..s
            },
        },
        _ => t.input_buffer@ == edited(s.input_buffer@, code) && t == App { input_buffer: t.input_buffer, ..s },
    }
}

/// `Up`/`Down` in the command line walk its history; other keys edit it.
pub open spec fn command_history_post(s: App, code: KeyCode, t: App) -> bool {
    let hv = string_views(s.command_history@);
    match code {
        KeyCode::Up => match recalled_up(hv.len() as int, s.command_history_idx) {
            None => t == s,
            Some(i) => t.input_buffer@ == hv[i] && t == App {
                input_buffer: t.input_buffer,
                command_history_idx: Some(i as usize),
                ..s
            },
        },
        KeyCode::Down => match recalled_down(hv, s.command_history_idx) {
            None => t == s,
            Some(p) => t.input_buffer@ == p.1 && t == App {
                input_buffer: t.input_buffer,
                command_history_idx: p.0,
                ..s
            },
        },
        _ => t.input_buffer@ == edited(s.input_buffer@, code) && t == App { input_buffer: t.input_buffer, ..s },
    }
}

/// `Enter` in the search line: the query is remembered and searched for;
/// the reader shows the first match.
pub open spec fn searched(s: App, t: App) -> bool {
    let q = s.input_buffer@;
    let common = App {
        search_history: t.search_history,
        input_buffer: t.input_buffer,
        search_history_idx: None,
        mode: AppMode::Reader,
        ..s
    };
    &&& string_views(t.search_history@) == remembered(string_views(s.search_history@), q)
    &&& t.input_buffer@.len() == 0
    &&& if s.search_index is Some {
        let ix = s.search_index->0;
        let ms = if ix.can_search(q) { matches_of(ix, q) } else { Seq::empty() };
        let found = App { search_matches: t.search_matches, current_match_idx: 0, ..common };
        &&& mviews(t.search_matches@) == ms
        &&& if ms.len() > 0 && s.active_layout is Some {
            scrolled_to_offset(found, t, ms[0].char_start as int)
        } else {
            t == found
        }
    } else {
        t == common
    }
}

impl App {
    fn history_key(&mut self, code: KeyCode, commands: bool)
        requires
            old(self).wf(),
            code != KeyCode::Enter && code != KeyCode::Esc,
        ensures
            final(self).wf(),
            commands ==> command_history_post(*old(self), code, *final(self)),
            !commands ==> search_history_post(*old(self), code, *final(self)),
    {
        match code {
            KeyCode::Up => {
                let h = if commands { &self.command_history } else { &self.search_history };
                let idx = if commands { self.command_history_idx } else { self.search_history_idx };
                match recall_up(h, idx) {
                    Some((i, line)) => {
                        self.input_buffer = line;
                        if commands {
                            self.command_history_idx = Some(i);
                        } else {
                            self.search_history_idx = Some(i);
                        }
                    },
                    None => {},
                }
            },
            KeyCode::Down => {
                let h = if commands { &self.command_history } else { &self.search_history };
                let idx = if commands { self.command_history_idx } else { self.search_history_idx };
                match recall_down(h, idx) {
                    Some((i, line)) => {
                        self.input_buffer = line;
                        if commands {
                            self.command_history_idx = i;
                        } else {
                            self.search_history_idx = i;
                        }
                    },
                    None => {},
                }
            },
            _ => {
                self.input_buffer = edit_line(&self.input_buffer, code);
            },
        }
    }

    #[verifier::rlimit(60)]
    fn run_search(&mut self)
        requires
            old(self).wf(),
        ensures
            final(self).wf(),
            searched(*old(self), *final(self)),
    {
        let q = copy_string(&self.input_buffer);
        remember(&mut self.search_history, &q);
        self.search_history_idx = None;
        self.input_buffer = String::new();
        self.mode = AppMode::Reader;
        let found: Option<Vec<SearchMatch>> = match &self.search_index {
            Some(ix) => if ix.search_fits(q.as_str()) {
                Some(ix.search(q.as_str()))
            } else {
                let none: Vec<SearchMatch> = Vec::new();
                assert(mviews(none@) =~= Seq::<MatchV>::empty());
                Some(none)
            },
            None => None,
        };
        match found {
            Some(ms) => {
                self.search_matches = ms;
                self.current_match_idx = 0;
                if self.search_matches.len() > 0 {
                    let off = self.search_matches[0].char_start;
                    match &self.active_layout {
                        Some(l) => {
                            let r = l.line_at_char_offset(off);
                            let ln = l.lines.len();
                            assert(r < ln || ln == 0);
                            self.reader_view.scroll_offset = r;
                        },
                        None => {},
                    }
                }
            },
            None => {},
        }
    }
}


// ---------------------------------------------------------------------
// Commands

/// The position of the first space of `s` (its length when there is
/// none).
pub open spec fn first_space(s: Seq<char>) -> int
    decreases s.len(),
{
    if s.len() == 0 || s[0] == ' ' {
        0
    } else {
        1 + first_space(s.skip(1))
    }
}

fn first_space_exec(s: &Vec<char>) -> (r: usize)
    ensures
        r == first_space(s@),
{
    let mut i: usize = 0;
    assert(s@.skip(0) =~= s@);
    while i < s.len() && s[i] != ' '
        invariant
            i <= s@.len(),
            first_space(s@) == i + first_space(s@.skip(i as int)),
        decreases s.len() - i,
    {
        assert(s@.skip(i as int).skip(1) =~= s@.skip(i + 1));
        i = i + 1;
    }
    assert(s@.skip(i as int).len() == 0 || s@.skip(i as int)[0] == ' ');
    i
}

pub open spec fn default_opds_url() -> Seq<char> {
    "https://www.gutenberg.org/ebooks/search.opds/"@
}

/// The commands of the command line that leave the application or change
/// its theme or windows (`c` trimmed).
pub open spec fn command_post(s: App, c: Seq<char>, t: App, e: EffectV) -> bool {
    let rv = s.reader_view;
    if c == "q"@ || c == "quit"@ {
        e == EffectV::Nothing && t == (if s.mode == AppMode::Reader {
            App { mode: AppMode::Library, ..s }
        } else {
            App { is_running: false, ..s }
        })
    } else if c == "qa"@ || c == "quitall"@ {
        e == EffectV::Nothing && t == App { is_running: false, ..s }
    } else if c == "config edit"@ || c == "config"@ {
        e == EffectV::EditConfig && t == s
    } else if c == "themes"@ || c == "theme"@ {
        e == EffectV::Nothing && t == App { reader_view: ReaderView { show_themes: true, ..rv }, ..s }
    } else if starts_with(c, "theme "@) {
        let name = trimmed(c.skip(6));
        &&& e == EffectV::Nothing
        &&& t.config.theme@ == name
        &&& (theme_for_name(lowercase(name)) matches Some(k) ==> t.theme.is_kind(k))
        &&& t == App { config: Config { theme: t.config.theme, ..s.config }, theme: t.theme, ..s }
    } else if starts_with(c, "open "@) {
        e == EffectV::OpenUri { uri: trimmed(c.skip(5)) } && t == s
    } else if starts_with(c, "o "@) {
        e == EffectV::OpenUri { uri: trimmed(c.skip(2)) } && t == s
    } else {
        command_post_actions(s, c, t, e)
    }
}

/// The commands that stand for an action or open a window.
pub open spec fn command_post_actions(s: App, c: Seq<char>, t: App, e: EffectV) -> bool {
    let rv = s.reader_view;
    if c == "w"@ || c == "save"@ {
        action_post(s, KeyAction::SaveToLibrary, t, e)
    } else if c == "b"@ || c == "bookmark"@ {
        action_post(s, KeyAction::AddBookmark, t, e)
    } else if c == "bl"@ || c == "bookmarks"@ {
        action_post(s, KeyAction::ListBookmarks, t, e)
    } else if c == "toc"@ || c == "t"@ {
        e == EffectV::Nothing && t == App { reader_view: ReaderView { show_toc: true, ..rv }, ..s }
    } else if c == "info"@ || c == "i"@ {
        e == EffectV::Nothing && t == App { reader_view: ReaderView { show_info: true, ..rv }, ..s }
    } else if c == "help"@ || c == "h"@ {
        e == EffectV::Nothing && t == App { reader_view: ReaderView { show_help: true, ..rv }, ..s }
    } else if c == "widescreen"@ || c == "wide"@ {
        action_post(s, KeyAction::ToggleWidescreen, t, e)
    } else if c == "simple"@ || c == "s"@ {
        action_post(s, KeyAction::ToggleSimpleMode, t, e)
    } else if c == "css"@ {
        action_post(s, KeyAction::ToggleCss, t, e)
    } else {
        command_post_library(s, c, t, e)
    }
}

/// Scanning, OPDS catalogs and jumps to a line.
pub open spec fn command_post_library(s: App, c: Seq<char>, t: App, e: EffectV) -> bool {
    if starts_with(c, "scan "@) {
        e == EffectV::ScanDirectory { dir: trimmed(c.skip(5)) } && t == s
    } else if c == "opds"@ {
        t == s && e == EffectV::OpenOpds {
            url: match s.config.opds_catalogs.lookup("gutenberg"@) {
                Some(u) => u@,
                None => default_opds_url(),
            },
        }
    } else if starts_with(c, "opds add "@) {
        let rest = trimmed(c.skip(9));
        let k = first_space(rest);
        let name = rest.take(k);
        let url = trimmed(rest.skip(k));
        if name.len() > 0 && url.len() > 0 {
            &&& e == EffectV::SaveConfig
            &&& (forall|n: Seq<char>| n != name ==> t.config.opds_catalogs.lookup(n) == s.config.opds_catalogs.lookup(n))
            &&& t.config.opds_catalogs.lookup(name) matches Some(u) && u@ == url
            &&& t == App { config: Config { opds_catalogs: t.config.opds_catalogs, ..s.config }, ..s }
        } else {
            e == EffectV::Nothing && t.status_message is Some && t == App { status_message: t.status_message, ..s }
        }
    } else if starts_with(c, "opds open "@) {
        let arg = trimmed(c.skip(10));
        t == s && e == EffectV::OpenOpds {
            url: match s.config.opds_catalogs.lookup(arg) {
                Some(u) => u@,
                None => arg,
            },
        }
    } else {
        e == EffectV::Nothing && match parsed_usize(c) {
            Some(n) => t == (if n > 0 { scrolled_to(s, n - 1) } else { s }),
            None => if starts_with(c, "goto "@) {
                match parsed_usize(trimmed(c.skip(5))) {
                    Some(n) => t == (if n > 0 { scrolled_to(s, n - 1) } else { s }),
                    None => t == s,
                }
            } else {
                t == s
            },
        }
    }
}

fn skip_to_string(v: &Vec<char>, n: usize) -> (r: String)
    requires
        n <= v@.len(),
    ensures
        r@ == v@.skip(n as int),
{
    let r = string_of_range(v, n, v.len());
    assert(v@.subrange(n as int, v@.len() as int) =~= v@.skip(n as int));
    r
}

fn trimmed_rest(v: &Vec<char>, n: usize) -> (r: Vec<char>)
    requires
        n <= v@.len(),
    ensures
        r@ == trimmed(v@.skip(n as int)),
{
    let rest = skip_to_string(v, n);
    trim_chars(rest.as_str())
}

impl App {
    /// Runs a command of the command line (trimmed); see `command_post`.
    pub fn run_command(&mut self, cmd: &str) -> (e: Effect)
        requires
            old(self).wf(),
        ensures
            final(self).wf(),
            command_post(*old(self), cmd@, *final(self), e@),
    {
        proof {
            reveal_strlit("theme ");
            reveal_strlit("open ");
            reveal_strlit("o ");
        }
        let c = chars_of(cmd);
        if str_eq(cmd, "q") || str_eq(cmd, "quit") {
            if self.mode == AppMode::Reader {
                self.mode = AppMode::Library;
            } else {
                self.is_running = false;
            }
            Effect::Nothing
        } else if str_eq(cmd, "qa") || str_eq(cmd, "quitall") {
            self.is_running = false;
            Effect::Nothing
        } else if str_eq(cmd, "config edit") || str_eq(cmd, "config") {
            Effect::EditConfig
        } else if str_eq(cmd, "themes") || str_eq(cmd, "theme") {
            self.reader_view.show_themes = true;
            Effect::Nothing
        } else if starts_with_exec(&c, "theme ") {
            let name = trimmed_rest(&c, 6);
            let name = string_from_chars(name.as_slice());
            self.theme = Theme::get_by_name(name.as_str(), self.desktop_light);
            self.config.theme = name;
            Effect::Nothing
        } else if starts_with_exec(&c, "open ") {
            let uri = trimmed_rest(&c, 5);
            Effect::OpenUri { uri: string_from_chars(uri.as_slice()) }
        } else if starts_with_exec(&c, "o ") {
            let uri = trimmed_rest(&c, 2);
            Effect::OpenUri { uri: string_from_chars(uri.as_slice()) }
        } else {
            self.run_action_command(cmd)
        }
    }

    fn run_action_command(&mut self, cmd: &str) -> (e: Effect)
        requires
            old(self).wf(),
        ensures
            final(self).wf(),
            command_post_actions(*old(self), cmd@, *final(self), e@),
    {
        if str_eq(cmd, "w") || str_eq(cmd, "save") {
            self.handle_action(KeyAction::SaveToLibrary)
        } else if str_eq(cmd, "b") || str_eq(cmd, "bookmark") {
            self.handle_action(KeyAction::AddBookmark)
        } else if str_eq(cmd, "bl") || str_eq(cmd, "bookmarks") {
            self.handle_action(KeyAction::ListBookmarks)
        } else if str_eq(cmd, "toc") || str_eq(cmd, "t") {
            self.reader_view.show_toc = true;
            Effect::Nothing
        } else if str_eq(cmd, "info") || str_eq(cmd, "i") {
            self.reader_view.show_info = true;
            Effect::Nothing
        } else if str_eq(cmd, "help") || str_eq(cmd, "h") {
            self.reader_view.show_help = true;
            Effect::Nothing
        } else if str_eq(cmd, "widescreen") || str_eq(cmd, "wide") {
            self.handle_action(KeyAction::ToggleWidescreen)
        } else if str_eq(cmd, "simple") || str_eq(cmd, "s") {
            self.handle_action(KeyAction::ToggleSimpleMode)
        } else if str_eq(cmd, "css") {
            self.handle_action(KeyAction::ToggleCss)
        } else {
            self.run_library_command(cmd)
        }
    }

    #[verifier::rlimit(60)]
    fn run_library_command(&mut self, cmd: &str) -> (e: Effect)
        requires
            old(self).wf(),
        ensures
            final(self).wf(),
            command_post_library(*old(self), cmd@, *final(self), e@),
    {
        proof {
            reveal_strlit("scan ");
            reveal_strlit("opds add ");
            reveal_strlit("opds open ");
            reveal_strlit("goto ");
        }
        let c = chars_of(cmd);
        if starts_with_exec(&c, "scan ") {
            let dir = trimmed_rest(&c, 5);
            Effect::ScanDirectory { dir: string_from_chars(dir.as_slice()) }
        } else if str_eq(cmd, "opds") {
            let url = match self.config.opds_catalogs.get("gutenberg") {
                Some(u) => copy_string(u),
                None => owned("https://www.gutenberg.org/ebooks/search.opds/"),
            };
            Effect::OpenOpds { url }
        } else if starts_with_exec(&c, "opds add ") {
            let rest = trimmed_rest(&c, 9);
            let k = first_space_exec(&rest);
            proof {
                lemma_first_space_bound(rest@);
            }
            let name = string_of_range(&rest, 0, k);
            assert(rest@.subrange(0, k as int) =~= rest@.take(k as int));
            let url = trimmed_rest(&rest, k);
            if name.unicode_len() > 0 && url.len() > 0 {
                self.config.opds_catalogs.insert(name, string_from_chars(url.as_slice()));
                Effect::SaveConfig
            } else {
                self.status_message = Some(owned("Usage: :opds add <name> <url>"));
                Effect::Nothing
            }
        } else if starts_with_exec(&c, "opds open ") {
            let arg = trimmed_rest(&c, 10);
            let arg = string_from_chars(arg.as_slice());
            let url = match self.config.opds_catalogs.get(arg.as_str()) {
                Some(u) => copy_string(u),
                None => arg,
            };
            Effect::OpenOpds { url }
        } else {
            let n = match parse_usize(cmd) {
                Some(n) => Some(n),
                None => if starts_with_exec(&c, "goto ") {
                    let arg = trimmed_rest(&c, 5);
                    let arg = string_from_chars(arg.as_slice());
                    parse_usize(arg.as_str())
                } else {
                    None
                },
            };
            match n {
                Some(n) => {
                    if n > 0 {
                        self.reader_view.scroll_offset = n - 1;
                    }
                },
                None => {},
            }
            Effect::Nothing
        }
    }
}

proof fn lemma_first_space_bound(s: Seq<char>)
    ensures
        0 <= first_space(s) <= s.len(),
    decreases s.len(),
{
    if s.len() > 0 && s[0] != ' ' {
        lemma_first_space_bound(s.skip(1));
    }
}


// ---------------------------------------------------------------------
// Key presses

/// What a key press does to the state `s`: the status message is
/// cleared; the input lines take the keys of the input modes; otherwise
/// the keys go through the key bindings and an action that fires is
/// carried out.
/// Clipboard text as it goes into an input line: carriage returns are
/// dropped and line feeds become spaces.
pub open spec fn pasted(t: Seq<char>) -> Seq<char>
    decreases t.len(),
{
    if t.len() == 0 {
        Seq::empty()
    } else if t.last() == '\r' {
        pasted(t.drop_last())
    } else if t.last() == '\n' {
        pasted(t.drop_last()).push(' ')
    } else {
        pasted(t.drop_last()).push(t.last())
    }
}

/// Ctrl+V (or Ctrl+Shift+V) in the search, command or open-file line: a
/// paste.
pub open spec fn is_paste_key(m: AppMode, k: KeyInput) -> bool {
    &&& m == AppMode::SearchInput || m == AppMode::CommandInput || m == AppMode::OpenFileInput
    &&& k.ctrl
    &&& k.code == KeyCode::Char('v') || k.code == KeyCode::Char('V')
}

pub open spec fn key_post(s: App, k: KeyInput, t: App, e: EffectV) -> bool {
    let s0 = App { status_message: None, ..s };
    if is_paste_key(s.mode, k) {
        t == s0 && e == EffectV::ReadClipboard
    } else {
    match s.mode {
        AppMode::OpenFileInput => open_input_post(s0, k.code, t, e),
        AppMode::FilterInput => filter_input_post(s0, k.code, t) && e == EffectV::Nothing,
        AppMode::SearchInput => e == EffectV::Nothing && match k.code {
            KeyCode::Enter => searched(s0, t),
            KeyCode::Esc => t.input_buffer@.len() == 0 && t == App {
                input_buffer: t.input_buffer,
                search_history_idx: None,
                mode: AppMode::Reader,
                ..s0
            },
            _ => search_history_post(s0, k.code, t),
        },
        AppMode::CommandInput => match k.code {
            KeyCode::Enter => {
                let cmd = trimmed(s.input_buffer@);
                &&& string_views(t.command_history@) == remembered(string_views(s.command_history@), cmd)
                &&& t.input_buffer@.len() == 0
                &&& command_post(
                    App {
                        command_history: t.command_history,
                        command_history_idx: None,
                        input_buffer: t.input_buffer,
                        mode: s.command_origin,
                        ..s0
                    },
                    cmd,
                    t,
                    e,
                )
            },
            KeyCode::Esc => e == EffectV::Nothing && input_started(s0, t, home_mode(s0)),
            _ => e == EffectV::Nothing && command_history_post(s0, k.code, t),
        },
        _ => {
            let d = dispatch(s.key_dispatcher.pending(), key_name(k), s.config.keymap.bindings);
            &&& t.key_dispatcher.pending() == d.0
            &&& match d.1 {
                Some(a) => action_post(App { key_dispatcher: t.key_dispatcher, ..s0 }, a, t, e),
                None => e == EffectV::Nothing && t == App { key_dispatcher: t.key_dispatcher, ..s0 },
            }
        },
    }
    }
}

impl App {
    /// Handles one key press; see `key_post`.
    #[verifier::rlimit(80)]
    pub fn handle_key(&mut self, key: KeyInput) -> (e: Effect)
        requires
            old(self).wf(),
        ensures
            final(self).wf(),
            key_post(*old(self), key, *final(self), e@),
    {
        self.status_message = None;
        let input_line = match self.mode {
            AppMode::SearchInput | AppMode::CommandInput | AppMode::OpenFileInput => true,
            _ => false,
        };
        if input_line && key.ctrl && (key.code == KeyCode::Char('v') || key.code == KeyCode::Char('V')) {
            return Effect::ReadClipboard;
        }
        match self.mode {
            AppMode::OpenFileInput => self.open_input_key(key.code),
            AppMode::FilterInput => {
                self.filter_input_key(key.code);
                Effect::Nothing
            },
            AppMode::SearchInput => {
                self.search_key(key.code);
                Effect::Nothing
            },
            AppMode::CommandInput => self.command_key(key.code),
            _ => self.bound_key(key),
        }
    }

    fn search_key(&mut self, code: KeyCode)
        requires
            old(self).wf(),
        ensures
            final(self).wf(),
            match code {
                KeyCode::Enter => searched(*old(self), *final(self)),
                KeyCode::Esc => final(self).input_buffer@.len() == 0 && *final(self) == App {
                    input_buffer: final(self).input_buffer,
                    search_history_idx: None,
                    mode: AppMode::Reader,
                    ..*old(self)
                },
                _ => search_history_post(*old(self), code, *final(self)),
            },
    {
        match code {
            KeyCode::Enter => self.run_search(),
            KeyCode::Esc => {
                self.input_buffer = String::new();
                self.search_history_idx = None;
                self.mode = AppMode::Reader;
            },
            _ => self.history_key(code, false),
        }
    }

    fn bound_key(&mut self, key: KeyInput) -> (e: Effect)
        requires
            old(self).wf(),
        ensures
            final(self).wf(),
            final(self).key_dispatcher.pending() == dispatch(
                old(self).key_dispatcher.pending(),
                key_name(key),
                old(self).config.keymap.bindings,
            ).0,
            match dispatch(old(self).key_dispatcher.pending(), key_name(key), old(self).config.keymap.bindings).1 {
                Some(a) => action_post(
                    App { key_dispatcher: final(self).key_dispatcher, ..*old(self) },
                    a,
                    *final(self),
                    e@,
                ),
                None => e@ == EffectV::Nothing && *final(self) == App {
                    key_dispatcher: final(self).key_dispatcher,
                    ..*old(self)
                },
            },
    {
        let fired = self.key_dispatcher.handle_event(key, &self.config.keymap);
        match fired {
            Some(a) => self.handle_action(a),
            None => Effect::Nothing,
        }
    }

    fn command_key(&mut self, code: KeyCode) -> (e: Effect)
        requires
            old(self).wf(),
            old(self).mode == AppMode::CommandInput,
            old(self).status_message is None,
        ensures
            final(self).wf(),
            key_post(*old(self), KeyInput { code, ctrl: false, alt: false }, *final(self), e@),
    {
        match code {
            KeyCode::Enter => {
                let t = trim_chars(self.input_buffer.as_str());
                let cmd = string_from_chars(t.as_slice());
                remember(&mut self.command_history, &cmd);
                self.command_history_idx = None;
                self.input_buffer = String::new();
                self.mode = self.command_origin;
                self.run_command(cmd.as_str())
            },
            KeyCode::Esc => {
                self.input_buffer = String::new();
                self.mode = if self.active_book.is_some() { AppMode::Reader } else { AppMode::Library };
                Effect::Nothing
            },
            _ => {
                self.history_key(code, true);
                Effect::Nothing
            },
        }
    }

    /// The configuration was edited and read again: it replaces the
    /// current one, the theme follows it and the open book is laid out
    /// again under it.
    pub fn config_reloaded(&mut self, config: Config)
        requires
            old(self).wf(),
        ensures
            final(self).wf(),
            theme_for_name(lowercase(config.theme@)) matches Some(k) ==> final(self).theme.is_kind(k),
            relaid(App { config, theme: final(self).theme, ..*old(self) }, *final(self)),
    {
        let theme = Theme::get_by_name(config.theme.as_str(), self.desktop_light);
        self.config = config;
        self.theme = theme;
        self.relayout();
    }

    /// The books of the library list in the order shown (see `listing`).
    pub fn visible_library_books(&self) -> (r: Vec<&LibraryEntry>)
        ensures
            r@.len() == listing(self.library_books@, self.library_view.sort_mode, self.library_view.filter@).len(),
            forall|k: int| 0 <= k < r@.len() ==> *#[trigger] r@[k] == self.library_books@[listing(
                self.library_books@,
                self.library_view.sort_mode,
                self.library_view.filter@,
            )[k] as int],
    {
        let v = visible_indices(&self.library_books, &self.library_view);
        let mut r: Vec<&LibraryEntry> = Vec::new();
        let mut i: usize = 0;
        while i < v.len()
            invariant
                i <= v@.len(),
                r@.len() == i,
                forall|k: int| 0 <= k < v@.len() ==> #[trigger] v@[k] < self.library_books@.len(),
                forall|k: int| 0 <= k < i ==> *#[trigger] r@[k] == self.library_books@[v@[k] as int],
            decreases v.len() - i,
        {
            r.push(&self.library_books[v[i]]);
            i = i + 1;
        }
        r
    }
}

} // verus!
