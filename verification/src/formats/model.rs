//! Format-neutral document model shared by every parser, the layout engine
//! and the search index.
use crate::config::StringMap;
use crate::text::{concat_all, join, owned};
use vstd::prelude::*;

verus! {

#[derive(Debug, Clone, Copy, PartialEq, Eq)]
pub enum BookFormat {
    Fb2,
    Fb2Zip,
    Epub,
}

impl BookFormat {
    pub open spec fn spec_name(self) -> Seq<char> {
        match self {
            BookFormat::Fb2 => "fb2"@,
            BookFormat::Fb2Zip => "fb2.zip"@,
            BookFormat::Epub => "epub"@,
        }
    }

    /// The display name of the format (`fb2`, `fb2.zip`, `epub`).
    pub fn to_string(&self) -> (r: String)
        ensures
            r@ == self.spec_name(),
    {
        match self {
            BookFormat::Fb2 => owned("fb2"),
            BookFormat::Fb2Zip => owned("fb2.zip"),
            BookFormat::Epub => owned("epub"),
        }
    }
}

#[derive(Debug, Clone, PartialEq)]
pub struct Metadata {
    pub title: String,
    pub authors: Vec<String>,
    pub series_name: Option<String>,
    pub series_index: Option<u32>,
    pub genres: Vec<String>,
    pub annotation: Option<String>,
    pub cover_image_key: Option<String>,
    pub format: BookFormat,
}

impl Metadata {
    /// The metadata of a book about which nothing is known yet.
    pub open spec fn is_default(self) -> bool {
        &&& self.title@ == "Unknown Title"@
        &&& self.authors@.len() == 1
        &&& self.authors@[0]@ == "Unknown Author"@
        &&& self.series_name is None
        &&& self.series_index is None
        &&& self.genres@.len() == 0
        &&& self.annotation is None
        &&& self.cover_image_key is None
        &&& self.format == BookFormat::Fb2
    }
}

impl Default for Metadata {
    fn default() -> (r: Self)
        ensures
            r.is_default(),
    {
        let mut authors: Vec<String> = Vec::new();
        authors.push(owned("Unknown Author"));
        Metadata {
            title: owned("Unknown Title"),
            authors,
            series_name: None,
            series_index: None,
            genres: Vec::new(),
            annotation: None,
            cover_image_key: None,
            format: BookFormat::Fb2,
        }
    }
}

#[derive(Debug, PartialEq)]
pub struct TocItem {
    pub title: String,
    pub target_href: String,
    pub block_index: usize,
    pub children: Vec<TocItem>,
}

/// Mathematical value of a table-of-contents entry.
pub struct TocV {
    pub title: Seq<char>,
    pub target_href: Seq<char>,
    pub block_index: int,
    pub children: Seq<TocV>,
}

pub open spec fn tview(t: TocItem) -> TocV
    decreases t,
{
    TocV {
        title: t.title@,
        target_href: t.target_href@,
        block_index: t.block_index as int,
        children: tviews(t.children@),
    }
}

pub open spec fn tviews(s: Seq<TocItem>) -> Seq<TocV>
    decreases s,
{
    if s.len() == 0 {
        Seq::empty()
    } else {
        tviews(s.drop_last()).push(tview(s.last()))
    }
}

/// Mathematical value of book metadata.
pub struct MetadataV {
    pub title: Seq<char>,
    pub authors: Seq<Seq<char>>,
    pub series_name: Option<Seq<char>>,
    pub series_index: Option<u32>,
    pub genres: Seq<Seq<char>>,
    pub annotation: Option<Seq<char>>,
    pub cover_image_key: Option<Seq<char>>,
    pub format: BookFormat,
}

pub open spec fn str_views(s: Seq<String>) -> Seq<Seq<char>> {
    s.map_values(|x: String| x@)
}

impl View for Metadata {
    type V = MetadataV;

    open spec fn view(&self) -> MetadataV {
        MetadataV {
            title: self.title@,
            authors: str_views(self.authors@),
            series_name: opt_view(self.series_name),
            series_index: self.series_index,
            genres: str_views(self.genres@),
            annotation: opt_view(self.annotation),
            cover_image_key: opt_view(self.cover_image_key),
            format: self.format,
        }
    }
}

#[derive(Debug, PartialEq)]
pub enum Inline {
    Text(String),
    Bold(Vec<Inline>),
    Italic(Vec<Inline>),
    Underline(Vec<Inline>),
    Strike(Vec<Inline>),
    Link { target: String, inlines: Vec<Inline> },
    Code(String),
    Image { key: String, alt: Option<String> },
    LineBreak,
    /// Content that the publisher's CSS hides (`display: none`).
    Hidden(Vec<Inline>),
}

/// The characters of an optional string, empty when absent.
pub open spec fn opt_text(o: Option<String>) -> Seq<char> {
    match o {
        Some(s) => s@,
        None => Seq::empty(),
    }
}

/// The plain text of an inline element.
pub open spec fn inline_text(i: Inline) -> Seq<char>
    decreases i,
{
    match i {
        Inline::Text(t) => t@,
        Inline::Code(t) => t@,
        Inline::Bold(c) => inlines_text(c@),
        Inline::Italic(c) => inlines_text(c@),
        Inline::Underline(c) => inlines_text(c@),
        Inline::Strike(c) => inlines_text(c@),
        Inline::Hidden(c) => inlines_text(c@),
        Inline::Link { inlines, .. } => inlines_text(inlines@),
        Inline::Image { alt, .. } => opt_text(alt),
        Inline::LineBreak => seq!['\n'],
    }
}

/// The plain texts of a run of inline elements, concatenated.
pub open spec fn inlines_text(s: Seq<Inline>) -> Seq<char>
    decreases s,
{
    if s.len() == 0 {
        Seq::empty()
    } else {
        inlines_text(s.drop_last()) + inline_text(s.last())
    }
}

/// The plain text of a run is the concatenation of its elements' plain
/// texts.
pub proof fn lemma_inlines_text_concat(s: Seq<Inline>)
    ensures
        inlines_text(s) == concat_all(s.map_values(|i: Inline| inline_text(i))),
    decreases s.len(),
{
    if s.len() > 0 {
        lemma_inlines_text_concat(s.drop_last());
        assert(s.map_values(|i: Inline| inline_text(i)).drop_last() =~= s.drop_last().map_values(
            |i: Inline| inline_text(i),
        ));
    }
}

/// What plain text each kind of inline element has: emphasis and links
/// give the concatenated plain texts of their content, text and code
/// their text, an image its alternative text (empty when it has none),
/// a line break a newline.
pub proof fn lemma_plain_text_of_each_kind(v: Vec<Inline>, t: String, k: String, a: Option<String>)
    ensures
        inline_text(Inline::Bold(v)) == concat_all(v@.map_values(|i: Inline| inline_text(i))),
        inline_text(Inline::Italic(v)) == inline_text(Inline::Bold(v)),
        inline_text(Inline::Underline(v)) == inline_text(Inline::Bold(v)),
        inline_text(Inline::Strike(v)) == inline_text(Inline::Bold(v)),
        inline_text(Inline::Link { target: t, inlines: v }) == inline_text(Inline::Bold(v)),
        inline_text(Inline::Text(t)) == t@,
        inline_text(Inline::Code(t)) == t@,
        inline_text(Inline::Image { key: k, alt: a }) == opt_text(a),
        inline_text(Inline::LineBreak) == seq!['\n'],
{
    lemma_inlines_text_concat(v@);
}

/// The plain texts of a run of inline elements, concatenated.
pub fn inlines_plain_text(v: &Vec<Inline>) -> (r: String)
    ensures
        r@ == inlines_text(v@),
    decreases v,
{
    let mut r = String::new();
    let mut i: usize = 0;
    while i < v.len()
        invariant
            i <= v.len(),
            r@ == inlines_text(v@.take(i as int)),
        decreases v.len() - i,
    {
        let t = v[i].plain_text();
        r.append(t.as_str());
        assert(v@.take(i + 1).drop_last() =~= v@.take(i as int));
        i = i + 1;
    }
    assert(v@.take(v.len() as int) =~= v@);
    r
}

fn opt_plain_text(o: &Option<String>) -> (r: String)
    ensures
        r@ == opt_text(*o),
{
    match o {
        Some(s) => owned(s.as_str()),
        None => String::new(),
    }
}

impl Inline {
    /// The text of this element with all formatting removed.
    pub fn plain_text(&self) -> (r: String)
        ensures
            r@ == inline_text(*self),
        decreases self,
    {
        match self {
            Inline::Text(t) => owned(t.as_str()),
            Inline::Code(t) => owned(t.as_str()),
            Inline::Bold(c) => inlines_plain_text(c),
            Inline::Italic(c) => inlines_plain_text(c),
            Inline::Underline(c) => inlines_plain_text(c),
            Inline::Strike(c) => inlines_plain_text(c),
            Inline::Hidden(c) => inlines_plain_text(c),
            Inline::Link { inlines, .. } => inlines_plain_text(inlines),
            Inline::Image { alt, .. } => opt_plain_text(alt),
            Inline::LineBreak => {
                proof {
                    reveal_strlit("\n");
                }
                owned("\n")
            },
        }
    }
}

#[derive(Debug, PartialEq)]
pub struct ListItem {
    pub inlines: Vec<Inline>,
}

#[derive(Debug, PartialEq)]
pub struct TableCell {
    pub is_header: bool,
    pub inlines: Vec<Inline>,
}

#[derive(Debug, PartialEq)]
pub struct TableRow {
    pub cells: Vec<TableCell>,
}

#[derive(Debug, PartialEq)]
pub struct PoemStanza {
    pub lines: Vec<Vec<Inline>>,
}

#[derive(Debug, PartialEq)]
pub enum Block {
    Paragraph(Vec<Inline>),
    Heading { level: u8, inlines: Vec<Inline> },
    Quote(Vec<Block>),
    Epigraph(Vec<Block>),
    Annotation(Vec<Block>),
    List { ordered: bool, items: Vec<ListItem> },
    Table { rows: Vec<TableRow> },
    Poem { stanzas: Vec<PoemStanza> },
    Image { key: String, alt: Option<String> },
    Empty,
    /// Blocks that the publisher's CSS hides (`display: none`).
    Hidden(Vec<Block>),
}

/// The plain texts of each list item.
pub open spec fn items_texts(s: Seq<ListItem>) -> Seq<Seq<char>>
    decreases s.len(),
{
    if s.len() == 0 {
        Seq::empty()
    } else {
        items_texts(s.drop_last()).push(inlines_text(s.last().inlines@))
    }
}

/// The plain texts of each cell of a row.
pub open spec fn cells_texts(s: Seq<TableCell>) -> Seq<Seq<char>>
    decreases s.len(),
{
    if s.len() == 0 {
        Seq::empty()
    } else {
        cells_texts(s.drop_last()).push(inlines_text(s.last().inlines@))
    }
}

/// A table row as text: its cells joined by ` | `.
pub open spec fn row_text(r: TableRow) -> Seq<char> {
    join(cells_texts(r.cells@), " | "@)
}

pub open spec fn rows_texts(s: Seq<TableRow>) -> Seq<Seq<char>>
    decreases s.len(),
{
    if s.len() == 0 {
        Seq::empty()
    } else {
        rows_texts(s.drop_last()).push(row_text(s.last()))
    }
}

/// The plain texts of each line of a stanza.
pub open spec fn lines_texts(s: Seq<Vec<Inline>>) -> Seq<Seq<char>>
    decreases s.len(),
{
    if s.len() == 0 {
        Seq::empty()
    } else {
        lines_texts(s.drop_last()).push(inlines_text(s.last()@))
    }
}

/// A stanza as text: its lines joined by newlines.
pub open spec fn stanza_text(st: PoemStanza) -> Seq<char> {
    join(lines_texts(st.lines@), "\n"@)
}

pub open spec fn stanzas_texts(s: Seq<PoemStanza>) -> Seq<Seq<char>>
    decreases s.len(),
{
    if s.len() == 0 {
        Seq::empty()
    } else {
        stanzas_texts(s.drop_last()).push(stanza_text(s.last()))
    }
}

/// The plain text of a block.
pub open spec fn block_text(b: Block) -> Seq<char>
    decreases b,
{
    match b {
        Block::Paragraph(inlines) => inlines_text(inlines@),
        Block::Heading { inlines, .. } => inlines_text(inlines@),
        Block::Quote(bs) => join(blocks_texts(bs@), "\n"@),
        Block::Epigraph(bs) => join(blocks_texts(bs@), "\n"@),
        Block::Annotation(bs) => join(blocks_texts(bs@), "\n"@),
        Block::Hidden(bs) => join(blocks_texts(bs@), "\n"@),
        Block::List { items, .. } => join(items_texts(items@), "\n"@),
        Block::Table { rows } => join(rows_texts(rows@), "\n"@),
        Block::Poem { stanzas } => join(stanzas_texts(stanzas@), "\n\n"@),
        Block::Image { alt, .. } => opt_text(alt),
        Block::Empty => Seq::empty(),
    }
}

/// The plain texts of each block.
pub open spec fn blocks_texts(s: Seq<Block>) -> Seq<Seq<char>>
    decreases s,
{
    if s.len() == 0 {
        Seq::empty()
    } else {
        blocks_texts(s.drop_last()).push(block_text(s.last()))
    }
}

/// Joins `parts` with `sep`.
pub fn join_strings(parts: &Vec<String>, sep: &str) -> (r: String)
    ensures
        r@ == join(parts@.map_values(|p: String| p@), sep@),
{
    let ghost views = parts@.map_values(|p: String| p@);
    let mut r = String::new();
    let mut i: usize = 0;
    while i < parts.len()
        invariant
            i <= parts.len(),
            views == parts@.map_values(|p: String| p@),
            r@ == join(views.take(i as int), sep@),
        decreases parts.len() - i,
    {
        assert(views.take(i + 1).drop_last() =~= views.take(i as int));
        if i > 0 {
            r.append(sep);
        }
        r.append(parts[i].as_str());
        i = i + 1;
    }
    assert(views.take(parts.len() as int) =~= views);
    r
}

fn items_plain_texts(items: &Vec<ListItem>) -> (r: Vec<String>)
    ensures
        r@.map_values(|p: String| p@) == items_texts(items@),
{
    let mut r: Vec<String> = Vec::new();
    let mut i: usize = 0;
    while i < items.len()
        invariant
            i <= items.len(),
            r@.map_values(|p: String| p@) == items_texts(items@.take(i as int)),
        decreases items.len() - i,
    {
        let t = inlines_plain_text(&items[i].inlines);
        r.push(t);
        assert(items@.take(i + 1).drop_last() =~= items@.take(i as int));
        assert(r@.map_values(|p: String| p@) =~= items_texts(items@.take(i + 1)));
        i = i + 1;
    }
    assert(items@.take(items.len() as int) =~= items@);
    r
}

fn cells_plain_texts(cells: &Vec<TableCell>) -> (r: Vec<String>)
    ensures
        r@.map_values(|p: String| p@) == cells_texts(cells@),
{
    let mut r: Vec<String> = Vec::new();
    let mut i: usize = 0;
    while i < cells.len()
        invariant
            i <= cells.len(),
            r@.map_values(|p: String| p@) == cells_texts(cells@.take(i as int)),
        decreases cells.len() - i,
    {
        let t = inlines_plain_text(&cells[i].inlines);
        r.push(t);
        assert(cells@.take(i + 1).drop_last() =~= cells@.take(i as int));
        assert(r@.map_values(|p: String| p@) =~= cells_texts(cells@.take(i + 1)));
        i = i + 1;
    }
    assert(cells@.take(cells.len() as int) =~= cells@);
    r
}

/// The text of one table row (cells joined by ` | `).
pub fn row_plain_text(row: &TableRow) -> (r: String)
    ensures
        r@ == row_text(*row),
{
    let cells = cells_plain_texts(&row.cells);
    join_strings(&cells, " | ")
}

fn rows_plain_texts(rows: &Vec<TableRow>) -> (r: Vec<String>)
    ensures
        r@.map_values(|p: String| p@) == rows_texts(rows@),
{
    let mut r: Vec<String> = Vec::new();
    let mut i: usize = 0;
    while i < rows.len()
        invariant
            i <= rows.len(),
            r@.map_values(|p: String| p@) == rows_texts(rows@.take(i as int)),
        decreases rows.len() - i,
    {
        let t = row_plain_text(&rows[i]);
        r.push(t);
        assert(rows@.take(i + 1).drop_last() =~= rows@.take(i as int));
        assert(r@.map_values(|p: String| p@) =~= rows_texts(rows@.take(i + 1)));
        i = i + 1;
    }
    assert(rows@.take(rows.len() as int) =~= rows@);
    r
}

fn lines_plain_texts(lines: &Vec<Vec<Inline>>) -> (r: Vec<String>)
    ensures
        r@.map_values(|p: String| p@) == lines_texts(lines@),
{
    let mut r: Vec<String> = Vec::new();
    let mut i: usize = 0;
    while i < lines.len()
        invariant
            i <= lines.len(),
            r@.map_values(|p: String| p@) == lines_texts(lines@.take(i as int)),
        decreases lines.len() - i,
    {
        let t = inlines_plain_text(&lines[i]);
        r.push(t);
        assert(lines@.take(i + 1).drop_last() =~= lines@.take(i as int));
        assert(r@.map_values(|p: String| p@) =~= lines_texts(lines@.take(i + 1)));
        i = i + 1;
    }
    assert(lines@.take(lines.len() as int) =~= lines@);
    r
}

fn stanzas_plain_texts(stanzas: &Vec<PoemStanza>) -> (r: Vec<String>)
    ensures
        r@.map_values(|p: String| p@) == stanzas_texts(stanzas@),
{
    let mut r: Vec<String> = Vec::new();
    let mut i: usize = 0;
    while i < stanzas.len()
        invariant
            i <= stanzas.len(),
            r@.map_values(|p: String| p@) == stanzas_texts(stanzas@.take(i as int)),
        decreases stanzas.len() - i,
    {
        let lines = lines_plain_texts(&stanzas[i].lines);
        let t = join_strings(&lines, "\n");
        r.push(t);
        assert(stanzas@.take(i + 1).drop_last() =~= stanzas@.take(i as int));
        assert(r@.map_values(|p: String| p@) =~= stanzas_texts(stanzas@.take(i + 1)));
        i = i + 1;
    }
    assert(stanzas@.take(stanzas.len() as int) =~= stanzas@);
    r
}

fn blocks_plain_texts(blocks: &Vec<Block>) -> (r: Vec<String>)
    ensures
        r@.map_values(|p: String| p@) == blocks_texts(blocks@),
    decreases blocks,
{
    let mut r: Vec<String> = Vec::new();
    let mut i: usize = 0;
    while i < blocks.len()
        invariant
            i <= blocks.len(),
            r@.map_values(|p: String| p@) == blocks_texts(blocks@.take(i as int)),
        decreases blocks.len() - i,
    {
        let t = blocks[i].plain_text();
        r.push(t);
        assert(blocks@.take(i + 1).drop_last() =~= blocks@.take(i as int));
        assert(r@.map_values(|p: String| p@) =~= blocks_texts(blocks@.take(i + 1)));
        i = i + 1;
    }
    assert(blocks@.take(blocks.len() as int) =~= blocks@);
    r
}

impl Block {
    /// The text of this block with all formatting removed: nested blocks
    /// and list items are separated by newlines, table cells by ` | `,
    /// stanzas by a blank line.
    pub fn plain_text(&self) -> (r: String)
        ensures
            r@ == block_text(*self),
        decreases self,
    {
        match self {
            Block::Paragraph(inlines) => inlines_plain_text(inlines),
            Block::Heading { inlines, .. } => inlines_plain_text(inlines),
            Block::Quote(bs) => join_strings(&blocks_plain_texts(bs), "\n"),
            Block::Epigraph(bs) => join_strings(&blocks_plain_texts(bs), "\n"),
            Block::Annotation(bs) => join_strings(&blocks_plain_texts(bs), "\n"),
            Block::Hidden(bs) => join_strings(&blocks_plain_texts(bs), "\n"),
            Block::List { items, .. } => join_strings(&items_plain_texts(items), "\n"),
            Block::Table { rows } => join_strings(&rows_plain_texts(rows), "\n"),
            Block::Poem { stanzas } => join_strings(&stanzas_plain_texts(stanzas), "\n\n"),
            Block::Image { alt, .. } => opt_plain_text(alt),
            Block::Empty => String::new(),
        }
    }
}

/// Mathematical value of an inline element: its structure with every
/// string taken as its characters.
pub enum InlineV {
    Text(Seq<char>),
    Bold(Seq<InlineV>),
    Italic(Seq<InlineV>),
    Underline(Seq<InlineV>),
    Strike(Seq<InlineV>),
    Link { target: Seq<char>, inlines: Seq<InlineV> },
    Code(Seq<char>),
    Image { key: Seq<char>, alt: Option<Seq<char>> },
    LineBreak,
    Hidden(Seq<InlineV>),
}

/// Mathematical value of a table cell.
pub struct TableCellV {
    pub is_header: bool,
    pub inlines: Seq<InlineV>,
}

/// Mathematical value of a block.
pub enum BlockV {
    Paragraph(Seq<InlineV>),
    Heading { level: u8, inlines: Seq<InlineV> },
    Quote(Seq<BlockV>),
    Epigraph(Seq<BlockV>),
    Annotation(Seq<BlockV>),
    List { ordered: bool, items: Seq<Seq<InlineV>> },
    Table { rows: Seq<Seq<TableCellV>> },
    Poem { stanzas: Seq<Seq<Seq<InlineV>>> },
    Image { key: Seq<char>, alt: Option<Seq<char>> },
    Empty,
    Hidden(Seq<BlockV>),
}

pub open spec fn opt_view(o: Option<String>) -> Option<Seq<char>> {
    match o {
        Some(s) => Some(s@),
        None => None,
    }
}

pub open spec fn iview(i: Inline) -> InlineV
    decreases i,
{
    match i {
        Inline::Text(t) => InlineV::Text(t@),
        Inline::Code(t) => InlineV::Code(t@),
        Inline::Bold(c) => InlineV::Bold(iviews(c@)),
        Inline::Italic(c) => InlineV::Italic(iviews(c@)),
        Inline::Underline(c) => InlineV::Underline(iviews(c@)),
        Inline::Strike(c) => InlineV::Strike(iviews(c@)),
        Inline::Hidden(c) => InlineV::Hidden(iviews(c@)),
        Inline::Link { target, inlines } => InlineV::Link { target: target@, inlines: iviews(inlines@) },
        Inline::Image { key, alt } => InlineV::Image { key: key@, alt: opt_view(alt) },
        Inline::LineBreak => InlineV::LineBreak,
    }
}

pub open spec fn iviews(s: Seq<Inline>) -> Seq<InlineV>
    decreases s,
{
    if s.len() == 0 {
        Seq::empty()
    } else {
        iviews(s.drop_last()).push(iview(s.last()))
    }
}

pub open spec fn item_views(s: Seq<ListItem>) -> Seq<Seq<InlineV>>
    decreases s.len(),
{
    if s.len() == 0 {
        Seq::empty()
    } else {
        item_views(s.drop_last()).push(iviews(s.last().inlines@))
    }
}

pub open spec fn cell_views(s: Seq<TableCell>) -> Seq<TableCellV>
    decreases s.len(),
{
    if s.len() == 0 {
        Seq::empty()
    } else {
        cell_views(s.drop_last()).push(
            TableCellV { is_header: s.last().is_header, inlines: iviews(s.last().inlines@) },
        )
    }
}

pub open spec fn row_views(s: Seq<TableRow>) -> Seq<Seq<TableCellV>>
    decreases s.len(),
{
    if s.len() == 0 {
        Seq::empty()
    } else {
        row_views(s.drop_last()).push(cell_views(s.last().cells@))
    }
}

pub open spec fn line_views(s: Seq<Vec<Inline>>) -> Seq<Seq<InlineV>>
    decreases s.len(),
{
    if s.len() == 0 {
        Seq::empty()
    } else {
        line_views(s.drop_last()).push(iviews(s.last()@))
    }
}

pub open spec fn stanza_views(s: Seq<PoemStanza>) -> Seq<Seq<Seq<InlineV>>>
    decreases s.len(),
{
    if s.len() == 0 {
        Seq::empty()
    } else {
        stanza_views(s.drop_last()).push(line_views(s.last().lines@))
    }
}

pub open spec fn bview(b: Block) -> BlockV
    decreases b,
{
    match b {
        Block::Paragraph(i) => BlockV::Paragraph(iviews(i@)),
        Block::Heading { level, inlines } => BlockV::Heading { level, inlines: iviews(inlines@) },
        Block::Quote(bs) => BlockV::Quote(bviews(bs@)),
        Block::Epigraph(bs) => BlockV::Epigraph(bviews(bs@)),
        Block::Annotation(bs) => BlockV::Annotation(bviews(bs@)),
        Block::Hidden(bs) => BlockV::Hidden(bviews(bs@)),
        Block::List { ordered, items } => BlockV::List { ordered, items: item_views(items@) },
        Block::Table { rows } => BlockV::Table { rows: row_views(rows@) },
        Block::Poem { stanzas } => BlockV::Poem { stanzas: stanza_views(stanzas@) },
        Block::Image { key, alt } => BlockV::Image { key: key@, alt: opt_view(alt) },
        Block::Empty => BlockV::Empty,
    }
}

pub open spec fn bviews(s: Seq<Block>) -> Seq<BlockV>
    decreases s,
{
    if s.len() == 0 {
        Seq::empty()
    } else {
        bviews(s.drop_last()).push(bview(s.last()))
    }
}

pub proof fn lemma_iviews_concat(a: Seq<Inline>, b: Seq<Inline>)
    ensures
        iviews(a + b) == iviews(a) + iviews(b),
    decreases b.len(),
{
    if b.len() == 0 {
        assert(a + b =~= a);
    } else {
        lemma_iviews_concat(a, b.drop_last());
        assert((a + b).drop_last() =~= a + b.drop_last());
    }
}

pub proof fn lemma_bviews_concat(a: Seq<Block>, b: Seq<Block>)
    ensures
        bviews(a + b) == bviews(a) + bviews(b),
    decreases b.len(),
{
    if b.len() == 0 {
        assert(a + b =~= a);
    } else {
        lemma_bviews_concat(a, b.drop_last());
        assert((a + b).drop_last() =~= a + b.drop_last());
    }
}

/// The text shown in place of an image: its alternative text, or
/// `prefix` + key + `]` when it has none.
pub open spec fn image_label(alt: Option<String>, prefix: Seq<char>, key: Seq<char>) -> Seq<char> {
    match alt {
        Some(a) => a@,
        None => prefix + key + "]"@,
    }
}

pub fn make_image_label(alt: &Option<String>, prefix: &str, key: &str) -> (r: String)
    ensures
        r@ == image_label(*alt, prefix@, key@),
{
    match alt {
        Some(a) => owned(a.as_str()),
        None => {
            let mut r = owned(prefix);
            r.append(key);
            r.append("]");
            r
        },
    }
}

pub struct Book {
    pub id: String,
    pub file_path: String,
    pub metadata: Metadata,
    pub content: Vec<Block>,
    pub toc: Vec<TocItem>,
    /// Embedded files (images) by key.
    pub resources: StringMap<Vec<u8>>,
}

impl Book {
    /// An empty book (no content, table of contents or resources).
    pub fn new(id: String, file_path: String, metadata: Metadata) -> (r: Self)
        ensures
            r.id@ == id@,
            r.file_path@ == file_path@,
            r.metadata == metadata,
            r.content@.len() == 0,
            r.toc@.len() == 0,
            r.resources.keys().len() == 0,
    {
        Book {
            id,
            file_path,
            metadata,
            content: Vec::new(),
            toc: Vec::new(),
            resources: StringMap::new(),
        }
    }
}


/// The plain text of an inline element, read from its value.
pub open spec fn itext(v: InlineV) -> Seq<char>
    decreases v,
{
    match v {
        InlineV::Text(t) => t,
        InlineV::Code(t) => t,
        InlineV::Bold(c) => itexts(c),
        InlineV::Italic(c) => itexts(c),
        InlineV::Underline(c) => itexts(c),
        InlineV::Strike(c) => itexts(c),
        InlineV::Hidden(c) => itexts(c),
        InlineV::Link { inlines, .. } => itexts(inlines),
        InlineV::Image { alt, .. } => match alt {
            Some(a) => a,
            None => Seq::empty(),
        },
        InlineV::LineBreak => seq!['\n'],
    }
}

pub open spec fn itexts(s: Seq<InlineV>) -> Seq<char>
    decreases s,
{
    if s.len() == 0 {
        Seq::empty()
    } else {
        itexts(s.drop_last()) + itext(s.last())
    }
}

pub proof fn lemma_inline_text_view(i: Inline)
    ensures
        inline_text(i) == itext(iview(i)),
    decreases i, 1nat,
{
    match i {
        Inline::Bold(c) => lemma_inlines_text_view(c@),
        Inline::Italic(c) => lemma_inlines_text_view(c@),
        Inline::Underline(c) => lemma_inlines_text_view(c@),
        Inline::Strike(c) => lemma_inlines_text_view(c@),
        Inline::Hidden(c) => lemma_inlines_text_view(c@),
        Inline::Link { inlines, .. } => lemma_inlines_text_view(inlines@),
        _ => {},
    }
}

/// The plain text of inline elements can be read from their values.
pub proof fn lemma_inlines_text_view(s: Seq<Inline>)
    ensures
        inlines_text(s) == itexts(iviews(s)),
    decreases s, 0nat,
{
    if s.len() > 0 {
        lemma_inlines_text_view(s.drop_last());
        lemma_inline_text_view(s.last());
        assert(iviews(s).drop_last() =~= iviews(s.drop_last()));
    }
}

} // verus!
