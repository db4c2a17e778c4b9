//! FictionBook 2 documents: metadata, embedded images, and the body turned
//! into blocks with a table of contents.
use crate::config::keymap::str_eq;
use crate::config::StringMap;
use crate::formats::encoding::{decode_bytes, decoded_text};
use crate::formats::uri::book_id_for_path;
use crate::utils::{sha1_hex_of, AppError, Result};
use vstd::string::StringSliceAdditionalSpecFns;
use vstd::utf8::encode_utf8;
use crate::formats::archive::{string_views, zip_entry_names, zip_member, zip_names, zip_open_error, zip_open_failure, zip_read};
use crate::formats::model::{
    bview, bviews, cell_views, inlines_plain_text, itexts, iview, iviews, lemma_inlines_text_view, line_views,
    row_views, stanza_views, opt_view, tview, tviews, Block, BlockV, Inline, InlineV, PoemStanza, TableCell,
    TableCellV, TableRow, TocItem, TocV, Metadata, MetadataV, str_views, join_strings, Book, BookFormat,
};
use crate::renderer::layout::{decimal, decimal_string};
use crate::formats::xml::{
    attr, attr_exec, children_of, href_exec, href_of, is_element, lemma_xviews_index, lemma_xviews_len,
    lemma_xviews_take, local_name, node_text, node_text_exec, xview, xviews, XmlNode, XmlNodeV, parse_xml,
    document_tree, xml_records,
};
use crate::text::{
    chars_of, ends_with, ends_with_exec, is_whitespace, is_ws, join, lowercase, lowercase_string, owned, parse_u32, parsed_u32, push_char, string_from_chars, string_of_range,
    trim_chars, trimmed,
};
use vstd::prelude::*;

verus! {

/// `s` without its leading `#` signs (`trim_start_matches('#')`).
pub open spec fn strip_hashes(s: Seq<char>) -> Seq<char>
    decreases s.len(),
{
    if s.len() > 0 && s[0] == '#' {
        strip_hashes(s.skip(1))
    } else {
        s
    }
}

pub fn strip_hashes_exec(s: &str) -> (r: String)
    ensures
        r@ == strip_hashes(s@),
{
    let cs = chars_of(s);
    let mut i: usize = 0;
    assert(cs@.skip(0) =~= cs@);
    while i < cs.len() && cs[i] == '#'
        invariant
            i <= cs@.len(),
            strip_hashes(cs@) == strip_hashes(cs@.skip(i as int)),
        decreases cs.len() - i,
    {
        assert(cs@.skip(i as int).skip(1) =~= cs@.skip(i + 1));
        i = i + 1;
    }
    let r = string_of_range(&cs, i, cs.len());
    proof {
        assert(cs@.subrange(i as int, cs@.len() as int) =~= cs@.skip(i as int));
        assert(cs@.skip(i as int).len() == 0 || cs@.skip(i as int)[0] != '#');
    }
    r
}

// ---------------------------------------------------------------------
// Inline content

/// The inline elements that one node of FB2 text gives.
pub open spec fn fb2_inline(n: XmlNodeV) -> Seq<InlineV>
    decreases n, 1int,
{
    match n {
        XmlNodeV::Text(t) => if t.len() > 0 {
            seq![InlineV::Text(t)]
        } else {
            Seq::empty()
        },
        XmlNodeV::Element { name, children, .. } => {
            if name == "strong"@ || name == "b"@ {
                seq![InlineV::Bold(fb2_inlines(children))]
            } else if name == "emphasis"@ || name == "i"@ {
                seq![InlineV::Italic(fb2_inlines(children))]
            } else if name == "strikethrough"@ || name == "s"@ || name == "del"@ {
                seq![InlineV::Strike(fb2_inlines(children))]
            } else if name == "style"@ || name == "code"@ {
                seq![InlineV::Code(itexts(fb2_inlines(children)))]
            } else if name == "a"@ {
                seq![
                    InlineV::Link {
                        target: match href_of(n) {
                            Some(h) => h,
                            None => Seq::empty(),
                        },
                        inlines: fb2_inlines(children),
                    },
                ]
            } else if name == "image"@ {
                match href_of(n) {
                    Some(h) => seq![InlineV::Image { key: strip_hashes(h), alt: None }],
                    None => Seq::empty(),
                }
            } else {
                fb2_inlines(children)
            }
        },
        XmlNodeV::Other => Seq::empty(),
    }
}

/// The inline elements of a run of FB2 nodes.
pub open spec fn fb2_inlines(cs: Seq<XmlNodeV>) -> Seq<InlineV>
    decreases cs, 0int,
{
    if cs.len() == 0 {
        Seq::empty()
    } else {
        fb2_inlines(cs.drop_last()) + fb2_inline(cs.last())
    }
}

proof fn lemma_iviews_push(s: Seq<Inline>, x: Inline)
    ensures
        iviews(s.push(x)) == iviews(s).push(iview(x)),
{
    assert(s.push(x).drop_last() =~= s);
}

fn push_inline(out: &mut Vec<Inline>, x: Inline)
    ensures
        iviews(final(out)@) == iviews(old(out)@).push(iview(x)),
{
    proof {
        lemma_iviews_push(old(out)@, x);
    }
    out.push(x);
}

fn inlines_of(cs: &Vec<XmlNode>) -> (r: Vec<Inline>)
    ensures
        iviews(r@) == fb2_inlines(xviews(cs@)),
    decreases cs, 2nat,
{
    let mut inner: Vec<Inline> = Vec::new();
    parse_inlines(cs, &mut inner);
    assert(iviews(inner@) =~= Seq::<InlineV>::empty() + fb2_inlines(xviews(cs@)));
    inner
}

fn parse_inline(n: &XmlNode, out: &mut Vec<Inline>)
    ensures
        iviews(final(out)@) == iviews(old(out)@) + fb2_inline(xview(*n)),
    decreases n, 3nat,
{
    let ghost before = iviews(out@);
    match n {
        XmlNode::Text(t) => {
            if t.unicode_len() > 0 {
                push_inline(out, Inline::Text(owned(t.as_str())));
                assert(iviews(out@) =~= before + fb2_inline(xview(*n)));
            } else {
                assert(iviews(out@) =~= before + fb2_inline(xview(*n)));
            }
        },
        XmlNode::Element { name, children, .. } => {
            let nm = name.as_str();
            if str_eq(nm, "strong") || str_eq(nm, "b") {
                let inner = inlines_of(children);
                push_inline(out, Inline::Bold(inner));
            } else if str_eq(nm, "emphasis") || str_eq(nm, "i") {
                let inner = inlines_of(children);
                push_inline(out, Inline::Italic(inner));
            } else if str_eq(nm, "strikethrough") || str_eq(nm, "s") || str_eq(nm, "del") {
                let inner = inlines_of(children);
                push_inline(out, Inline::Strike(inner));
            } else if str_eq(nm, "style") || str_eq(nm, "code") {
                let inner = inlines_of(children);
                let txt = inlines_plain_text(&inner);
                proof {
                    lemma_inlines_text_view(inner@);
                }
                push_inline(out, Inline::Code(txt));
            } else if str_eq(nm, "a") {
                let target = match href_exec(n) {
                    Some(h) => h,
                    None => String::new(),
                };
                let inner = inlines_of(children);
                push_inline(out, Inline::Link { target, inlines: inner });
            } else if str_eq(nm, "image") {
                match href_exec(n) {
                    Some(h) => {
                        let key = strip_hashes_exec(h.as_str());
                        push_inline(out, Inline::Image { key, alt: None });
                    },
                    None => {
                        assert(iviews(out@) =~= before + Seq::<InlineV>::empty());
                    },
                }
            } else {
                parse_inlines(children, out);
            }
            assert(iviews(out@) =~= before + fb2_inline(xview(*n)));
        },
        XmlNode::Other => {
            assert(iviews(out@) =~= before + Seq::<InlineV>::empty());
        },
    }
}

fn parse_inlines(cs: &Vec<XmlNode>, out: &mut Vec<Inline>)
    ensures
        iviews(final(out)@) == iviews(old(out)@) + fb2_inlines(xviews(cs@)),
    decreases cs, 1nat,
{
    let ghost start = iviews(out@);
    let mut i: usize = 0;
    proof {
        lemma_xviews_len(cs@);
        assert(xviews(cs@.take(0)) =~= Seq::<XmlNodeV>::empty());
    }
    assert(iviews(out@) =~= start + fb2_inlines(xviews(cs@.take(0))));
    while i < cs.len()
        invariant
            i <= cs@.len(),
            iviews(out@) == start + fb2_inlines(xviews(cs@.take(i as int))),
        decreases cs.len() - i,
    {
        proof {
            assert(cs@.take(i + 1).drop_last() =~= cs@.take(i as int));
            assert(cs@.take(i + 1).last() == cs@[i as int]);
        }
        let ghost mid = iviews(out@);
        parse_inline(&cs[i], out);
        assert(xviews(cs@.take(i + 1)).drop_last() == xviews(cs@.take(i as int)));
        assert(iviews(out@) =~= start + fb2_inlines(xviews(cs@.take(i + 1))));
        i = i + 1;
    }
    assert(cs@.take(cs@.len() as int) =~= cs@);
}


// ---------------------------------------------------------------------
// Blocks

/// The block that an FB2 element gives, if any.
pub open spec fn fb2_block(n: XmlNodeV) -> Option<BlockV>
    decreases n, 1int,
{
    match n {
        XmlNodeV::Element { name, children, .. } => {
            if name == "p"@ {
                Some(BlockV::Paragraph(fb2_inlines(children)))
            } else if name == "cite"@ {
                Some(BlockV::Quote(fb2_blocks(children)))
            } else if name == "epigraph"@ {
                Some(BlockV::Epigraph(fb2_blocks(children)))
            } else if name == "poem"@ {
                Some(BlockV::Poem { stanzas: fb2_stanzas(children) })
            } else if name == "table"@ {
                Some(BlockV::Table { rows: fb2_rows(children) })
            } else if name == "image"@ {
                match href_of(n) {
                    Some(h) => Some(BlockV::Image { key: strip_hashes(h), alt: None }),
                    None => None,
                }
            } else if name == "empty-line"@ {
                Some(BlockV::Empty)
            } else if fb2_inlines(children).len() > 0 {
                Some(BlockV::Paragraph(fb2_inlines(children)))
            } else {
                None
            }
        },
        _ => None,
    }
}

/// The blocks of the elements among `cs`.
pub open spec fn fb2_blocks(cs: Seq<XmlNodeV>) -> Seq<BlockV>
    decreases cs, 0int,
{
    if cs.len() == 0 {
        Seq::empty()
    } else if is_element(cs.last()) && fb2_block(cs.last()) is Some {
        fb2_blocks(cs.drop_last()).push(fb2_block(cs.last())->0)
    } else {
        fb2_blocks(cs.drop_last())
    }
}

/// The verses (`v` elements) of a stanza.
pub open spec fn fb2_verses(cs: Seq<XmlNodeV>) -> Seq<Seq<InlineV>>
    decreases cs.len(),
{
    if cs.len() == 0 {
        Seq::empty()
    } else if is_element(cs.last()) && local_name(cs.last()) == "v"@ {
        fb2_verses(cs.drop_last()).push(fb2_inlines(children_of(cs.last())))
    } else {
        fb2_verses(cs.drop_last())
    }
}

/// The stanzas (`stanza` elements) of a poem.
pub open spec fn fb2_stanzas(cs: Seq<XmlNodeV>) -> Seq<Seq<Seq<InlineV>>>
    decreases cs.len(),
{
    if cs.len() == 0 {
        Seq::empty()
    } else if is_element(cs.last()) && local_name(cs.last()) == "stanza"@ {
        fb2_stanzas(cs.drop_last()).push(fb2_verses(children_of(cs.last())))
    } else {
        fb2_stanzas(cs.drop_last())
    }
}

/// The cells (all element children) of a table row; `th` cells are
/// headers.
pub open spec fn fb2_cells(cs: Seq<XmlNodeV>) -> Seq<TableCellV>
    decreases cs.len(),
{
    if cs.len() == 0 {
        Seq::empty()
    } else if is_element(cs.last()) {
        fb2_cells(cs.drop_last()).push(
            TableCellV { is_header: local_name(cs.last()) == "th"@, inlines: fb2_inlines(children_of(cs.last())) },
        )
    } else {
        fb2_cells(cs.drop_last())
    }
}

/// The rows (`tr` elements) of a table.
pub open spec fn fb2_rows(cs: Seq<XmlNodeV>) -> Seq<Seq<TableCellV>>
    decreases cs.len(),
{
    if cs.len() == 0 {
        Seq::empty()
    } else if is_element(cs.last()) && local_name(cs.last()) == "tr"@ {
        fb2_rows(cs.drop_last()).push(fb2_cells(children_of(cs.last())))
    } else {
        fb2_rows(cs.drop_last())
    }
}

fn name_is(n: &XmlNode, s: &str) -> (r: bool)
    ensures
        r == (is_element(xview(*n)) && local_name(xview(*n)) == s@),
{
    match n {
        XmlNode::Element { name, .. } => str_eq(name.as_str(), s),
        _ => false,
    }
}

fn verses_of(cs: &Vec<XmlNode>) -> (r: Vec<Vec<Inline>>)
    ensures
        line_views(r@) == fb2_verses(xviews(cs@)),
{
    let mut r: Vec<Vec<Inline>> = Vec::new();
    let mut i: usize = 0;
    proof { lemma_xviews_len(cs@); }
    while i < cs.len()
        invariant
            i <= cs@.len(),
            line_views(r@) == fb2_verses(xviews(cs@.take(i as int))),
        decreases cs.len() - i,
    {
        proof {
            lemma_xviews_take(cs@, i as int);
            let xs = xviews(cs@.take(i as int));
            let x = xview(cs@[i as int]);
            assert(xs.push(x).drop_last() =~= xs);
            assert(xs.push(x).last() == x);
        }
        match &cs[i] {
            XmlNode::Element { name, children, .. } => {
                if str_eq(name.as_str(), "v") {
                    let inl = inlines_of(children);
                    let ghost prev = r@;
                    r.push(inl);
                    assert(r@.drop_last() =~= prev);
                }
            },
            _ => {},
        }
        i = i + 1;
    }
    assert(cs@.take(cs@.len() as int) =~= cs@);
    r
}

fn stanzas_of(cs: &Vec<XmlNode>) -> (r: Vec<PoemStanza>)
    ensures
        stanza_views(r@) == fb2_stanzas(xviews(cs@)),
{
    let mut r: Vec<PoemStanza> = Vec::new();
    let mut i: usize = 0;
    proof { lemma_xviews_len(cs@); }
    while i < cs.len()
        invariant
            i <= cs@.len(),
            stanza_views(r@) == fb2_stanzas(xviews(cs@.take(i as int))),
        decreases cs.len() - i,
    {
        proof {
            lemma_xviews_take(cs@, i as int);
            let xs = xviews(cs@.take(i as int));
            let x = xview(cs@[i as int]);
            assert(xs.push(x).drop_last() =~= xs);
            assert(xs.push(x).last() == x);
        }
        match &cs[i] {
            XmlNode::Element { name, children, .. } => {
                if str_eq(name.as_str(), "stanza") {
                    let lines = verses_of(children);
                    let ghost prev = r@;
                    r.push(PoemStanza { lines });
                    assert(r@.drop_last() =~= prev);
                }
            },
            _ => {},
        }
        i = i + 1;
    }
    assert(cs@.take(cs@.len() as int) =~= cs@);
    r
}

fn cells_of(cs: &Vec<XmlNode>) -> (r: Vec<TableCell>)
    ensures
        cell_views(r@) == fb2_cells(xviews(cs@)),
{
    let mut r: Vec<TableCell> = Vec::new();
    let mut i: usize = 0;
    proof { lemma_xviews_len(cs@); }
    while i < cs.len()
        invariant
            i <= cs@.len(),
            cell_views(r@) == fb2_cells(xviews(cs@.take(i as int))),
        decreases cs.len() - i,
    {
        proof {
            lemma_xviews_take(cs@, i as int);
            let xs = xviews(cs@.take(i as int));
            let x = xview(cs@[i as int]);
            assert(xs.push(x).drop_last() =~= xs);
            assert(xs.push(x).last() == x);
        }
        match &cs[i] {
            XmlNode::Element { name, children, .. } => {
                let is_header = str_eq(name.as_str(), "th");
                let inlines = inlines_of(children);
                let ghost prev = r@;
                r.push(TableCell { is_header, inlines });
                assert(r@.drop_last() =~= prev);
            },
            _ => {},
        }
        i = i + 1;
    }
    assert(cs@.take(cs@.len() as int) =~= cs@);
    r
}

fn rows_of(cs: &Vec<XmlNode>) -> (r: Vec<TableRow>)
    ensures
        row_views(r@) == fb2_rows(xviews(cs@)),
{
    let mut r: Vec<TableRow> = Vec::new();
    let mut i: usize = 0;
    proof { lemma_xviews_len(cs@); }
    while i < cs.len()
        invariant
            i <= cs@.len(),
            row_views(r@) == fb2_rows(xviews(cs@.take(i as int))),
        decreases cs.len() - i,
    {
        proof {
            lemma_xviews_take(cs@, i as int);
            let xs = xviews(cs@.take(i as int));
            let x = xview(cs@[i as int]);
            assert(xs.push(x).drop_last() =~= xs);
            assert(xs.push(x).last() == x);
        }
        match &cs[i] {
            XmlNode::Element { name, children, .. } => {
                if str_eq(name.as_str(), "tr") {
                    let cells = cells_of(children);
                    let ghost prev = r@;
                    r.push(TableRow { cells });
                    assert(r@.drop_last() =~= prev);
                }
            },
            _ => {},
        }
        i = i + 1;
    }
    assert(cs@.take(cs@.len() as int) =~= cs@);
    r
}

/// The block of an FB2 element (see `fb2_block`).
fn parse_block_element(n: &XmlNode) -> (r: Option<Block>)
    requires
        is_element(xview(*n)),
    ensures
        match r {
            Some(b) => fb2_block(xview(*n)) == Some(bview(b)),
            None => fb2_block(xview(*n)) is None,
        },
    decreases n, 1nat,
{
    match n {
        XmlNode::Element { name, children, .. } => {
            let nm = name.as_str();
            if str_eq(nm, "p") {
                Some(Block::Paragraph(inlines_of(children)))
            } else if str_eq(nm, "cite") {
                Some(Block::Quote(parse_blocks(children)))
            } else if str_eq(nm, "epigraph") {
                Some(Block::Epigraph(parse_blocks(children)))
            } else if str_eq(nm, "poem") {
                Some(Block::Poem { stanzas: stanzas_of(children) })
            } else if str_eq(nm, "table") {
                Some(Block::Table { rows: rows_of(children) })
            } else if str_eq(nm, "image") {
                match href_exec(n) {
                    Some(h) => Some(Block::Image { key: strip_hashes_exec(h.as_str()), alt: None }),
                    None => None,
                }
            } else if str_eq(nm, "empty-line") {
                Some(Block::Empty)
            } else {
                let inl = inlines_of(children);
                if inl.len() > 0 {
                    proof { lemma_iviews_len(inl@); }
                    Some(Block::Paragraph(inl))
                } else {
                    proof { lemma_iviews_len(inl@); }
                    None
                }
            }
        },
        _ => None,
    }
}

/// The blocks of the elements among `cs` (see `fb2_blocks`).
fn parse_blocks(cs: &Vec<XmlNode>) -> (r: Vec<Block>)
    ensures
        bviews(r@) == fb2_blocks(xviews(cs@)),
    decreases cs, 0nat,
{
    let mut r: Vec<Block> = Vec::new();
    let mut i: usize = 0;
    proof { lemma_xviews_len(cs@); }
    while i < cs.len()
        invariant
            i <= cs@.len(),
            bviews(r@) == fb2_blocks(xviews(cs@.take(i as int))),
        decreases cs.len() - i,
    {
        proof {
            lemma_xviews_take(cs@, i as int);
            let xs = xviews(cs@.take(i as int));
            let x = xview(cs@[i as int]);
            assert(xs.push(x).drop_last() =~= xs);
            assert(xs.push(x).last() == x);
        }
        let is_elem = match &cs[i] {
            XmlNode::Element { .. } => true,
            _ => false,
        };
        if is_elem {
            match parse_block_element(&cs[i]) {
                Some(b) => {
                    let ghost prev = r@;
                    r.push(b);
                    assert(r@.drop_last() =~= prev);
                },
                None => {},
            }
        }
        i = i + 1;
    }
    assert(cs@.take(cs@.len() as int) =~= cs@);
    r
}

proof fn lemma_iviews_len(s: Seq<Inline>)
    ensures
        iviews(s).len() == s.len(),
    decreases s.len(),
{
    if s.len() > 0 {
        lemma_iviews_len(s.drop_last());
    }
}


// ---------------------------------------------------------------------
// Sections, bodies and the table of contents

/// Where a table-of-contents entry points: `#block-` and the block's
/// position.
pub open spec fn block_href(i: int) -> Seq<char> {
    "#block-"@ + decimal(i as nat)
}

/// What the children of a section have given so far: blocks, the
/// contents entries of nested sections, and the section's title.
pub struct SectionState {
    pub blocks: Seq<BlockV>,
    pub toc: Seq<TocV>,
    pub title: Option<Seq<char>>,
}

/// The blocks and contents entries of a section whose first block lands
/// at position `base`: a titled section is one entry (at its first block)
/// holding the entries of its subsections; an untitled one passes them on.
pub open spec fn fb2_section(n: XmlNodeV, base: int) -> (Seq<BlockV>, Seq<TocV>)
    decreases n, 1int,
{
    match n {
        XmlNodeV::Element { children, .. } => {
            let st = section_fold(children, base);
            (
                st.blocks,
                match st.title {
                    Some(t) => seq![
                        TocV { title: t, target_href: block_href(base), block_index: base, children: st.toc },
                    ],
                    None => st.toc,
                },
            )
        },
        _ => (Seq::empty(), Seq::empty()),
    }
}

pub open spec fn section_fold(cs: Seq<XmlNodeV>, base: int) -> SectionState
    decreases cs, 0int,
{
    if cs.len() == 0 {
        SectionState { blocks: Seq::empty(), toc: Seq::empty(), title: None }
    } else {
        section_step(section_fold(cs.drop_last(), base), cs.last(), base)
    }
}

/// One child of a section: a title (a level-2 heading, and the section's
/// title), a nested section, or a block.
pub open spec fn section_step(st: SectionState, c: XmlNodeV, base: int) -> SectionState
    decreases c, 2int,
{
    if !is_element(c) {
        st
    } else if local_name(c) == "title"@ {
        let inl = fb2_inlines(children_of(c));
        SectionState {
            blocks: st.blocks.push(BlockV::Heading { level: 2, inlines: inl }),
            title: Some(itexts(inl)),
            ..st
        }
    } else if local_name(c) == "section"@ {
        let r = fb2_section(c, base + st.blocks.len());
        SectionState { blocks: st.blocks + r.0, toc: st.toc + r.1, ..st }
    } else {
        match fb2_block(c) {
            Some(b) => SectionState { blocks: st.blocks.push(b), ..st },
            None => st,
        }
    }
}

/// One child of a body, its blocks landing at `base` and after: a
/// section, a title (a level-1 heading with its own contents entry), or a
/// block.
pub open spec fn body_step(st: (Seq<BlockV>, Seq<TocV>), c: XmlNodeV, base: int) -> (Seq<BlockV>, Seq<TocV>) {
    let idx = base + st.0.len();
    if !is_element(c) {
        st
    } else if local_name(c) == "section"@ {
        let r = fb2_section(c, idx);
        (st.0 + r.0, st.1 + r.1)
    } else if local_name(c) == "title"@ {
        let inl = fb2_inlines(children_of(c));
        (
            st.0.push(BlockV::Heading { level: 1, inlines: inl }),
            st.1.push(TocV { title: itexts(inl), target_href: block_href(idx), block_index: idx, children: Seq::empty() }),
        )
    } else {
        match fb2_block(c) {
            Some(b) => (st.0.push(b), st.1),
            None => st,
        }
    }
}

/// The blocks and contents entries of the children of a body.
pub open spec fn body_fold(cs: Seq<XmlNodeV>, base: int) -> (Seq<BlockV>, Seq<TocV>)
    decreases cs.len(),
{
    if cs.len() == 0 {
        (Seq::empty(), Seq::empty())
    } else {
        body_step(body_fold(cs.drop_last(), base), cs.last(), base)
    }
}

proof fn lemma_tviews_push(s: Seq<TocItem>, x: TocItem)
    ensures
        tviews(s.push(x)) == tviews(s).push(tview(x)),
{
    assert(s.push(x).drop_last() =~= s);
}

proof fn lemma_tviews_concat(a: Seq<TocItem>, b: Seq<TocItem>)
    ensures
        tviews(a + b) == tviews(a) + tviews(b),
    decreases b.len(),
{
    if b.len() == 0 {
        assert(a + b =~= a);
        assert(tviews(a) + tviews(b) =~= tviews(a));
    } else {
        lemma_tviews_concat(a, b.drop_last());
        assert((a + b).drop_last() =~= a + b.drop_last());
        assert(tviews(a) + tviews(b) =~= (tviews(a) + tviews(b.drop_last())).push(tview(b.last())));
    }
}

proof fn lemma_bviews_len(s: Seq<Block>)
    ensures
        bviews(s).len() == s.len(),
    decreases s.len(),
{
    if s.len() > 0 {
        lemma_bviews_len(s.drop_last());
    }
}

fn push_block(out: &mut Vec<Block>, b: Block)
    ensures
        bviews(final(out)@) == bviews(old(out)@).push(bview(b)),
{
    proof {
        assert(old(out)@.push(b).drop_last() =~= old(out)@);
    }
    out.push(b);
}

fn push_toc(out: &mut Vec<TocItem>, t: TocItem)
    ensures
        tviews(final(out)@) == tviews(old(out)@).push(tview(t)),
{
    proof {
        lemma_tviews_push(old(out)@, t);
    }
    out.push(t);
}

fn append_toc(out: &mut Vec<TocItem>, more: Vec<TocItem>)
    ensures
        tviews(final(out)@) == tviews(old(out)@) + tviews(more@),
{
    let mut more = more;
    proof {
        lemma_tviews_concat(old(out)@, more@);
    }
    out.append(&mut more);
}

fn block_href_exec(i: usize) -> (r: String)
    ensures
        r@ == block_href(i as int),
{
    let mut r = owned("#block-");
    let d = decimal_string(i);
    r.append(d.as_str());
    r
}

/// The blocks and contents entries of a section (see `fb2_section`),
/// appended to `content` and `toc`.
fn parse_section(n: &XmlNode, content: &mut Vec<Block>, toc: &mut Vec<TocItem>)
    ensures
        bviews(final(content)@) == bviews(old(content)@) + fb2_section(xview(*n), old(content)@.len() as int).0,
        tviews(final(toc)@) == tviews(old(toc)@) + fb2_section(xview(*n), old(content)@.len() as int).1,
    decreases n, 1nat,
{
    let base = content.len();
    match n {
        XmlNode::Element { children, .. } => {
            let mut sub: Vec<TocItem> = Vec::new();
            let title = section_children(children, content, &mut sub);
            assert(tviews(sub@) =~= Seq::<TocV>::empty() + section_fold(xviews(children@), base as int).toc);
            match title {
                Some(t) => {
                    let href = block_href_exec(base);
                    push_toc(toc, TocItem { title: t, target_href: href, block_index: base, children: sub });
                },
                None => {
                    append_toc(toc, sub);
                },
            }
        },
        _ => {
            assert(bviews(content@) =~= bviews(old(content)@) + Seq::<BlockV>::empty());
            assert(tviews(toc@) =~= tviews(old(toc)@) + Seq::<TocV>::empty());
        },
    }
}

/// The children of a section (see `section_fold`): their blocks are
/// appended to `content`, the entries of nested sections to `sub`, and
/// the title is returned.
fn section_children(children: &Vec<XmlNode>, content: &mut Vec<Block>, sub: &mut Vec<TocItem>) -> (title: Option<String>)
    ensures
        bviews(final(content)@) == bviews(old(content)@) + section_fold(xviews(children@), old(content)@.len() as int).blocks,
        tviews(final(sub)@) == tviews(old(sub)@) + section_fold(xviews(children@), old(content)@.len() as int).toc,
        opt_view(title) == section_fold(xviews(children@), old(content)@.len() as int).title,
    decreases children, 0nat,
{
    let ghost c0 = bviews(content@);
    let ghost s0 = tviews(sub@);
    let base = content.len();
    let mut title: Option<String> = None;
    let mut i: usize = 0;
    proof {
        lemma_bviews_len(content@);
        lemma_xviews_len(children@);
        assert(xviews(children@.take(0)) =~= Seq::<XmlNodeV>::empty());
        assert(c0 + Seq::<BlockV>::empty() =~= c0);
        assert(s0 + Seq::<TocV>::empty() =~= s0);
    }
    while i < children.len()
        invariant
            i <= children@.len(),
            base == c0.len(),
            bviews(content@) == c0 + section_fold(xviews(children@.take(i as int)), base as int).blocks,
            tviews(sub@) == s0 + section_fold(xviews(children@.take(i as int)), base as int).toc,
            opt_view(title) == section_fold(xviews(children@.take(i as int)), base as int).title,
        decreases children.len() - i,
    {
        let ghost st = section_fold(xviews(children@.take(i as int)), base as int);
        let ghost x = xview(children@[i as int]);
        proof {
            lemma_xviews_take(children@, i as int);
            let xs = xviews(children@.take(i as int));
            assert(xs.push(x).drop_last() =~= xs);
            assert(xs.push(x).last() == x);
            assert(section_fold(xviews(children@.take(i + 1)), base as int) == section_step(st, x, base as int));
            lemma_bviews_len(content@);
        }
        let c = &children[i];
        match c {
            XmlNode::Element { name, children: cc, .. } => {
                if str_eq(name.as_str(), "title") {
                    let inl = inlines_of(cc);
                    let t = inlines_plain_text(&inl);
                    proof {
                        lemma_inlines_text_view(inl@);
                    }
                    title = Some(t);
                    push_block(content, Block::Heading { level: 2, inlines: inl });
                } else if str_eq(name.as_str(), "section") {
                    parse_section(c, content, sub);
                } else {
                    match parse_block_element(c) {
                        Some(b) => {
                            push_block(content, b);
                        },
                        None => {},
                    }
                }
            },
            _ => {},
        }
        proof {
            let st2 = section_step(st, x, base as int);
            assert(bviews(content@) =~= c0 + st2.blocks);
            assert(tviews(sub@) =~= s0 + st2.toc);
        }
        i = i + 1;
    }
    assert(children@.take(children@.len() as int) =~= children@);
    title
}

/// The blocks and contents entries of a body's children (see
/// `body_fold`), appended to `content` and `toc`.
fn parse_body(children: &Vec<XmlNode>, content: &mut Vec<Block>, toc: &mut Vec<TocItem>)
    ensures
        bviews(final(content)@) == bviews(old(content)@) + body_fold(xviews(children@), old(content)@.len() as int).0,
        tviews(final(toc)@) == tviews(old(toc)@) + body_fold(xviews(children@), old(content)@.len() as int).1,
{
    let ghost c0 = bviews(content@);
    let ghost t0 = tviews(toc@);
    let base = content.len();
    proof {
        lemma_bviews_len(content@);
        lemma_xviews_len(children@);
        assert(xviews(children@.take(0)) =~= Seq::<XmlNodeV>::empty());
        assert(c0 + Seq::<BlockV>::empty() =~= c0);
        assert(t0 + Seq::<TocV>::empty() =~= t0);
    }
    let mut i: usize = 0;
    while i < children.len()
        invariant
            i <= children@.len(),
            base == c0.len(),
            bviews(content@) == c0 + body_fold(xviews(children@.take(i as int)), base as int).0,
            tviews(toc@) == t0 + body_fold(xviews(children@.take(i as int)), base as int).1,
        decreases children.len() - i,
    {
        proof {
            lemma_xviews_take(children@, i as int);
            let xs = xviews(children@.take(i as int));
            let x = xview(children@[i as int]);
            assert(xs.push(x).drop_last() =~= xs);
            assert(xs.push(x).last() == x);
            lemma_bviews_len(content@);
        }
        let c = &children[i];
        match c {
            XmlNode::Element { name, children: cc, .. } => {
                if str_eq(name.as_str(), "section") {
                    parse_section(c, content, toc);
                    assert(bviews(content@) =~= c0 + body_fold(xviews(children@.take(i + 1)), base as int).0);
                    assert(tviews(toc@) =~= t0 + body_fold(xviews(children@.take(i + 1)), base as int).1);
                } else if str_eq(name.as_str(), "title") {
                    let idx = content.len();
                    let inl = inlines_of(cc);
                    let t = inlines_plain_text(&inl);
                    proof {
                        lemma_inlines_text_view(inl@);
                    }
                    push_block(content, Block::Heading { level: 1, inlines: inl });
                    let href = block_href_exec(idx);
                    let ghost no_toc: Seq<TocItem> = Seq::empty();
                    assert(tviews(no_toc) =~= Seq::<TocV>::empty());
                    push_toc(toc, TocItem { title: t, target_href: href, block_index: idx, children: Vec::new() });
                    assert(bviews(content@) =~= c0 + body_fold(xviews(children@.take(i + 1)), base as int).0);
                    assert(tviews(toc@) =~= t0 + body_fold(xviews(children@.take(i + 1)), base as int).1);
                } else {
                    match parse_block_element(c) {
                        Some(b) => {
                            push_block(content, b);
                            assert(bviews(content@) =~= c0 + body_fold(xviews(children@.take(i + 1)), base as int).0);
                        },
                        None => {},
                    }
                }
            },
            _ => {},
        }
        i = i + 1;
    }
    assert(children@.take(children@.len() as int) =~= children@);
}


// ---------------------------------------------------------------------
// Metadata

/// The title information read so far, and the authors found.
pub struct InfoState {
    pub meta: MetadataV,
    pub authors: Seq<Seq<char>>,
}

/// The parts of an author's name: the trimmed, non-empty texts of the
/// author element's children.
pub open spec fn author_parts(cs: Seq<XmlNodeV>) -> Seq<Seq<char>>
    decreases cs.len(),
{
    if cs.len() == 0 {
        Seq::empty()
    } else {
        let prev = author_parts(cs.drop_last());
        let c = cs.last();
        if is_element(c) && node_text(c) is Some && trimmed(node_text(c)->0).len() > 0 {
            prev.push(trimmed(node_text(c)->0))
        } else {
            prev
        }
    }
}

/// The first `image` element among `cs`.
pub open spec fn first_image(cs: Seq<XmlNodeV>) -> Option<XmlNodeV>
    decreases cs.len(),
{
    if cs.len() == 0 {
        None
    } else if is_element(cs[0]) && local_name(cs[0]) == "image"@ {
        Some(cs[0])
    } else {
        first_image(cs.skip(1))
    }
}

/// One child of `title-info`.
pub open spec fn info_step(st: InfoState, c: XmlNodeV) -> InfoState {
    let m = st.meta;
    let name = local_name(c);
    if !is_element(c) {
        st
    } else if name == "book-title"@ {
        match node_text(c) {
            Some(t) => InfoState { meta: MetadataV { title: trimmed(t), ..m }, ..st },
            None => st,
        }
    } else if name == "author"@ {
        let parts = author_parts(children_of(c));
        if parts.len() > 0 {
            InfoState { authors: st.authors.push(join(parts, " "@)), ..st }
        } else {
            st
        }
    } else if name == "sequence"@ {
        let m1 = match attr(c, "name"@) {
            Some(n) => MetadataV { series_name: Some(n), ..m },
            None => m,
        };
        let m2 = match attr(c, "number"@) {
            Some(x) => match parsed_u32(x) {
                Some(v) => MetadataV { series_index: Some(v as u32), ..m1 },
                None => m1,
            },
            None => m1,
        };
        InfoState { meta: m2, ..st }
    } else if name == "genre"@ {
        match node_text(c) {
            Some(g) => InfoState { meta: MetadataV { genres: m.genres.push(trimmed(g)), ..m }, ..st },
            None => st,
        }
    } else if name == "annotation"@ {
        let t = itexts(fb2_inlines(children_of(c)));
        if t.len() > 0 {
            InfoState { meta: MetadataV { annotation: Some(t), ..m }, ..st }
        } else {
            st
        }
    } else if name == "coverpage"@ {
        match first_image(children_of(c)) {
            Some(img) => match href_of(img) {
                Some(h) => InfoState { meta: MetadataV { cover_image_key: Some(strip_hashes(h)), ..m }, ..st },
                None => st,
            },
            None => st,
        }
    } else {
        st
    }
}

pub open spec fn info_fold(cs: Seq<XmlNodeV>, m0: MetadataV) -> InfoState
    decreases cs.len(),
{
    if cs.len() == 0 {
        InfoState { meta: m0, authors: Seq::empty() }
    } else {
        info_step(info_fold(cs.drop_last(), m0), cs.last())
    }
}

/// The metadata `m0` updated from a `title-info` element; the authors
/// found replace those of `m0`.
pub open spec fn fb2_metadata(title_info: XmlNodeV, m0: MetadataV) -> MetadataV {
    let st = info_fold(children_of(title_info), m0);
    if st.authors.len() > 0 {
        MetadataV { authors: st.authors, ..st.meta }
    } else {
        st.meta
    }
}

/// An `author` element whose name has at least one non-empty part.
pub open spec fn is_named_author(c: XmlNodeV) -> bool {
    is_element(c) && local_name(c) == "author"@ && author_parts(children_of(c)).len() > 0
}

/// The full name of an author element: its name parts joined by spaces.
pub open spec fn author_full_name(c: XmlNodeV) -> Seq<char> {
    join(author_parts(children_of(c)), " "@)
}

/// The full names of the named author elements among `cs`, in document
/// order.
pub open spec fn named_authors(cs: Seq<XmlNodeV>) -> Seq<Seq<char>> {
    cs.filter(|c: XmlNodeV| is_named_author(c)).map_values(|c: XmlNodeV| author_full_name(c))
}

proof fn lemma_named_authors_step(cs: Seq<XmlNodeV>)
    requires
        cs.len() > 0,
    ensures
        named_authors(cs) == if is_named_author(cs.last()) {
            named_authors(cs.drop_last()).push(author_full_name(cs.last()))
        } else {
            named_authors(cs.drop_last())
        },
{
    reveal(Seq::filter);
    assert(named_authors(cs) =~= if is_named_author(cs.last()) {
        named_authors(cs.drop_last()).push(author_full_name(cs.last()))
    } else {
        named_authors(cs.drop_last())
    });
}

proof fn lemma_info_step_authors(st: InfoState, c: XmlNodeV)
    ensures
        info_step(st, c).authors == if is_named_author(c) {
            st.authors.push(author_full_name(c))
        } else {
            st.authors
        },
        info_step(st, c).meta.authors == st.meta.authors,
{
    reveal_strlit("author");
    reveal_strlit("book-title");
    if is_named_author(c) {
        assert(local_name(c) != "book-title"@) by {
            assert("author"@.len() != "book-title"@.len());
        }
        assert(info_step(st, c).authors == st.authors.push(author_full_name(c)));
    } else {
        assert(info_step(st, c).authors == st.authors);
    }
}

proof fn lemma_info_fold_authors(cs: Seq<XmlNodeV>, m0: MetadataV)
    ensures
        info_fold(cs, m0).authors == named_authors(cs),
        info_fold(cs, m0).meta.authors == m0.authors,
    decreases cs.len(),
{
    if cs.len() > 0 {
        lemma_info_fold_authors(cs.drop_last(), m0);
        lemma_named_authors_step(cs);
        lemma_info_step_authors(info_fold(cs.drop_last(), m0), cs.last());
    } else {
        reveal(Seq::filter);
        assert(named_authors(cs) =~= Seq::<Seq<char>>::empty());
    }
}

/// A `genre` element with text.
pub open spec fn is_genre(c: XmlNodeV) -> bool {
    is_element(c) && local_name(c) == "genre"@ && node_text(c) is Some
}

/// The trimmed texts of the `genre` elements among `cs`, in order.
pub open spec fn genre_texts(cs: Seq<XmlNodeV>) -> Seq<Seq<char>> {
    cs.filter(|c: XmlNodeV| is_genre(c)).map_values(|c: XmlNodeV| trimmed(node_text(c)->0))
}

/// Every genre of a `title-info` is kept, in document order, after those
/// given before.
pub proof fn lemma_title_info_genres(cs: Seq<XmlNodeV>, m0: MetadataV)
    ensures
        info_fold(cs, m0).meta.genres == m0.genres + genre_texts(cs),
    decreases cs.len(),
{
    reveal(Seq::filter);
    reveal_strlit("genre");
    reveal_strlit("book-title");
    reveal_strlit("author");
    reveal_strlit("sequence");
    if cs.len() > 0 {
        lemma_title_info_genres(cs.drop_last(), m0);
        let c = cs.last();
        assert(genre_texts(cs) =~= if is_genre(c) {
            genre_texts(cs.drop_last()).push(trimmed(node_text(c)->0))
        } else {
            genre_texts(cs.drop_last())
        });
        if is_genre(c) {
            assert(local_name(c) != "book-title"@ && local_name(c) != "author"@ && local_name(c) != "sequence"@)
                by {
                assert("genre"@.len() != "book-title"@.len());
                assert("genre"@.len() != "author"@.len());
                assert("genre"@.len() != "sequence"@.len());
            }
            assert(m0.genres + genre_texts(cs) =~= (m0.genres + genre_texts(cs.drop_last())).push(
                trimmed(node_text(c)->0),
            ));
        }
    } else {
        assert(genre_texts(cs) =~= Seq::<Seq<char>>::empty());
        assert(m0.genres + genre_texts(cs) =~= m0.genres);
    }
}

/// Every author of a `title-info` is kept, in document order: when some
/// `author` elements have a name, the authors are exactly their full
/// names (parts joined by spaces), one per element; when none has, the
/// authors given before are kept.
pub proof fn lemma_fb2_metadata_authors(title_info: XmlNodeV, m0: MetadataV)
    ensures
        named_authors(children_of(title_info)).len() > 0 ==> fb2_metadata(title_info, m0).authors
            == named_authors(children_of(title_info)),
        named_authors(children_of(title_info)).len() == 0 ==> fb2_metadata(title_info, m0).authors
            == m0.authors,
{
    lemma_info_fold_authors(children_of(title_info), m0);
}

fn author_parts_exec(cs: &Vec<XmlNode>) -> (r: Vec<String>)
    ensures
        str_views(r@) == author_parts(xviews(cs@)),
{
    let mut r: Vec<String> = Vec::new();
    let mut i: usize = 0;
    proof {
        lemma_xviews_len(cs@);
        assert(str_views(r@) =~= Seq::<Seq<char>>::empty());
    }
    while i < cs.len()
        invariant
            i <= cs@.len(),
            str_views(r@) == author_parts(xviews(cs@.take(i as int))),
        decreases cs.len() - i,
    {
        proof {
            lemma_xviews_take(cs@, i as int);
            let xs = xviews(cs@.take(i as int));
            let x = xview(cs@[i as int]);
            assert(xs.push(x).drop_last() =~= xs);
            assert(xs.push(x).last() == x);
        }
        let is_elem = match &cs[i] {
            XmlNode::Element { .. } => true,
            _ => false,
        };
        if is_elem {
            match node_text_exec(&cs[i]) {
                Some(t) => {
                    let tt = trim_chars(t.as_str());
                    if tt.len() > 0 {
                        let ghost prev = str_views(r@);
                        r.push(string_from_chars(tt.as_slice()));
                        assert(str_views(r@) =~= prev.push(tt@));
                    }
                },
                None => {},
            }
        }
        i = i + 1;
    }
    assert(cs@.take(cs@.len() as int) =~= cs@);
    r
}

fn first_image_href(cs: &Vec<XmlNode>) -> (r: Option<String>)
    ensures
        opt_view(r) == match first_image(xviews(cs@)) {
            Some(img) => href_of(img),
            None => None,
        },
{
    let mut i: usize = 0;
    proof {
        lemma_xviews_len(cs@);
        assert(xviews(cs@).skip(0) =~= xviews(cs@));
    }
    while i < cs.len()
        invariant
            i <= cs@.len(),
            xviews(cs@).len() == cs@.len(),
            first_image(xviews(cs@)) == first_image(xviews(cs@).skip(i as int)),
        decreases cs.len() - i,
    {
        proof {
            lemma_xviews_index(cs@, i as int);
            assert(xviews(cs@).skip(i as int)[0] == xview(cs@[i as int]));
            assert(xviews(cs@).skip(i as int).skip(1) =~= xviews(cs@).skip(i + 1));
        }
        if name_is(&cs[i], "image") {
            return href_exec(&cs[i]);
        }
        i = i + 1;
    }
    None
}

fn copy_str(s: &String) -> (r: String)
    ensures
        r@ == s@,
{
    owned(s.as_str())
}

/// Reads the metadata of a `title-info` element into `metadata` (see
/// `fb2_metadata`).
fn parse_title_info(node: &XmlNode, metadata: &mut Metadata)
    ensures
        final(metadata)@ == fb2_metadata(xview(*node), old(metadata)@),
{
    let ghost m0 = metadata@;
    let mut authors: Vec<String> = Vec::new();
    match node {
        XmlNode::Element { children, .. } => {
            let mut i: usize = 0;
            proof {
                lemma_xviews_len(children@);
                assert(xviews(children@.take(0)) =~= Seq::<XmlNodeV>::empty());
                assert(str_views(authors@) =~= Seq::<Seq<char>>::empty());
            }
            while i < children.len()
                invariant
                    i <= children@.len(),
                    metadata@ == info_fold(xviews(children@.take(i as int)), m0).meta,
                    str_views(authors@) == info_fold(xviews(children@.take(i as int)), m0).authors,
                decreases children.len() - i,
            {
                let ghost st = info_fold(xviews(children@.take(i as int)), m0);
                let ghost x = xview(children@[i as int]);
                proof {
                    lemma_xviews_take(children@, i as int);
                    let xs = xviews(children@.take(i as int));
                    assert(xs.push(x).drop_last() =~= xs);
                    assert(xs.push(x).last() == x);
                    assert(info_fold(xviews(children@.take(i + 1)), m0) == info_step(st, x));
                }
                let c = &children[i];
                match c {
                    XmlNode::Element { name, children: cc, .. } => {
                        let nm = name.as_str();
                        if str_eq(nm, "book-title") {
                            match node_text_exec(c) {
                                Some(t) => {
                                    let tt = trim_chars(t.as_str());
                                    metadata.title = string_from_chars(tt.as_slice());
                                },
                                None => {},
                            }
                        } else if str_eq(nm, "author") {
                            let parts = author_parts_exec(cc);
                            if parts.len() > 0 {
                                let joined = join_strings(&parts, " ");
                                assert(parts@.map_values(|p: String| p@) =~= str_views(parts@));
                                let ghost prev = str_views(authors@);
                                authors.push(joined);
                                assert(str_views(authors@) =~= prev.push(joined@));
                            }
                        } else if str_eq(nm, "sequence") {
                            match attr_exec(c, "name") {
                                Some(n) => {
                                    metadata.series_name = Some(n);
                                },
                                None => {},
                            }
                            match attr_exec(c, "number") {
                                Some(x) => match parse_u32(x.as_str()) {
                                    Some(v) => {
                                        metadata.series_index = Some(v);
                                    },
                                    None => {},
                                },
                                None => {},
                            }
                        } else if str_eq(nm, "genre") {
                            match node_text_exec(c) {
                                Some(g) => {
                                    let gg = trim_chars(g.as_str());
                                    let ghost prev = str_views(metadata.genres@);
                                    metadata.genres.push(string_from_chars(gg.as_slice()));
                                    assert(str_views(metadata.genres@) =~= prev.push(gg@));
                                },
                                None => {},
                            }
                        } else if str_eq(nm, "annotation") {
                            let inl = inlines_of(cc);
                            let t = inlines_plain_text(&inl);
                            proof {
                                lemma_inlines_text_view(inl@);
                            }
                            if t.unicode_len() > 0 {
                                metadata.annotation = Some(t);
                            }
                        } else if str_eq(nm, "coverpage") {
                            match first_image_href(cc) {
                                Some(h) => {
                                    metadata.cover_image_key = Some(strip_hashes_exec(h.as_str()));
                                },
                                None => {},
                            }
                        }
                    },
                    _ => {},
                }
                assert(metadata@ == info_step(st, x).meta);
                i = i + 1;
            }
            assert(children@.take(children@.len() as int) =~= children@);
            if authors.len() > 0 {
                metadata.authors = authors;
            }
        },
        _ => {},
    }
}


// ---------------------------------------------------------------------
// Embedded images

/// `base64` with the standard alphabet and padding: the decoded bytes,
/// or `None` when the text is not valid.
pub uninterp spec fn base64_standard(text: Seq<char>) -> Option<Seq<u8>>;

/// `base64` with the standard alphabet and no padding.
pub uninterp spec fn base64_unpadded(text: Seq<char>) -> Option<Seq<u8>>;

/// `base64::engine::general_purpose::STANDARD.decode`; the contract
/// names the result.
#[verifier::external_body]
fn decode_base64_standard(text: &str) -> (r: Option<Vec<u8>>)
    ensures
        match r {
            Some(v) => base64_standard(text@) == Some(v@),
            None => base64_standard(text@) is None,
        },
{
    base64::Engine::decode(&base64::engine::general_purpose::STANDARD, text).ok()
}

/// `base64::engine::general_purpose::STANDARD_NO_PAD.decode`; the
/// contract names the result.
#[verifier::external_body]
fn decode_base64_unpadded(text: &str) -> (r: Option<Vec<u8>>)
    ensures
        match r {
            Some(v) => base64_unpadded(text@) == Some(v@),
            None => base64_unpadded(text@) is None,
        },
{
    base64::Engine::decode(&base64::engine::general_purpose::STANDARD_NO_PAD, text).ok()
}

/// Base64 with padding, else without.
pub open spec fn base64_decoded(text: Seq<char>) -> Option<Seq<u8>> {
    match base64_standard(text) {
        Some(b) => Some(b),
        None => base64_unpadded(text),
    }
}

pub fn base64_decode(text: &str) -> (r: Option<Vec<u8>>)
    ensures
        match r {
            Some(v) => base64_decoded(text@) == Some(v@),
            None => base64_decoded(text@) is None,
        },
{
    match decode_base64_standard(text) {
        Some(v) => Some(v),
        None => decode_base64_unpadded(text),
    }
}

/// `s` without its whitespace.
pub open spec fn without_ws(s: Seq<char>) -> Seq<char>
    decreases s.len(),
{
    if s.len() == 0 {
        Seq::empty()
    } else if is_ws(s.last()) {
        without_ws(s.drop_last())
    } else {
        without_ws(s.drop_last()).push(s.last())
    }
}

fn without_ws_exec(s: &str) -> (r: String)
    ensures
        r@ == without_ws(s@),
{
    let cs = chars_of(s);
    let mut r = String::new();
    let mut i: usize = 0;
    while i < cs.len()
        invariant
            i <= cs@.len(),
            r@ == without_ws(cs@.take(i as int)),
        decreases cs.len() - i,
    {
        assert(cs@.take(i + 1).drop_last() =~= cs@.take(i as int));
        assert(cs@.take(i + 1).last() == cs@[i as int]);
        if !is_whitespace(cs[i]) {
            push_char(&mut r, cs[i]);
        }
        i = i + 1;
    }
    assert(cs@.take(cs@.len() as int) =~= cs@);
    r
}

/// The key and the base64 text of a `binary` element with an `id`.
pub open spec fn binary_entry(c: XmlNodeV) -> Option<(Seq<char>, Seq<char>)> {
    if is_element(c) && local_name(c) == "binary"@ && attr(c, "id"@) is Some {
        Some((
            strip_hashes(attr(c, "id"@)->0),
            without_ws(
                match node_text(c) {
                    Some(t) => t,
                    None => Seq::empty(),
                },
            ),
        ))
    } else {
        None
    }
}

/// The image stored under `k`: the last `binary` element with that key
/// whose text decodes.
pub open spec fn fb2_resource(cs: Seq<XmlNodeV>, k: Seq<char>) -> Option<Seq<u8>>
    decreases cs.len(),
{
    if cs.len() == 0 {
        None
    } else {
        match binary_entry(cs.last()) {
            Some(e) => if e.0 == k && base64_decoded(e.1) is Some {
                base64_decoded(e.1)
            } else {
                fb2_resource(cs.drop_last(), k)
            },
            None => fb2_resource(cs.drop_last(), k),
        }
    }
}

pub open spec fn opt_bytes(o: Option<Vec<u8>>) -> Option<Seq<u8>> {
    match o {
        Some(v) => Some(v@),
        None => None,
    }
}

/// The images of the `binary` elements among `cs` (see `fb2_resource`).
fn read_binaries(cs: &Vec<XmlNode>) -> (r: StringMap<Vec<u8>>)
    ensures
        forall|k: Seq<char>| #[trigger] opt_bytes(r.lookup(k)) == fb2_resource(xviews(cs@), k),
{
    let mut r: StringMap<Vec<u8>> = StringMap::new();
    let mut i: usize = 0;
    proof {
        lemma_xviews_len(cs@);
        assert(xviews(cs@.take(0)) =~= Seq::<XmlNodeV>::empty());
    }
    while i < cs.len()
        invariant
            i <= cs@.len(),
            forall|k: Seq<char>| #[trigger] opt_bytes(r.lookup(k)) == fb2_resource(xviews(cs@.take(i as int)), k),
        decreases cs.len() - i,
    {
        let ghost x = xview(cs@[i as int]);
        proof {
            lemma_xviews_take(cs@, i as int);
            let xs = xviews(cs@.take(i as int));
            assert(xs.push(x).drop_last() =~= xs);
            assert(xs.push(x).last() == x);
        }
        let c = &cs[i];
        if name_is(c, "binary") {
            match attr_exec(c, "id") {
                Some(id) => {
                    let key = strip_hashes_exec(id.as_str());
                    let text = match node_text_exec(c) {
                        Some(t) => t,
                        None => String::new(),
                    };
                    let b64 = without_ws_exec(text.as_str());
                    match base64_decode(b64.as_str()) {
                        Some(bytes) => {
                            let ghost kv = key@;
                            r.insert(key, bytes);
                        },
                        None => {},
                    }
                },
                None => {},
            }
        }
        i = i + 1;
    }
    assert(cs@.take(cs@.len() as int) =~= cs@);
    r
}

// ---------------------------------------------------------------------
// Books

/// The first element named `name` among `cs`.
pub open spec fn first_named(cs: Seq<XmlNodeV>, name: Seq<char>) -> Option<XmlNodeV>
    decreases cs.len(),
{
    if cs.len() == 0 {
        None
    } else if is_element(cs[0]) && local_name(cs[0]) == name {
        Some(cs[0])
    } else {
        first_named(cs.skip(1), name)
    }
}

/// The root element of a document: the first element child of the
/// document node.
pub open spec fn root_element(doc: XmlNodeV) -> Option<XmlNodeV>
    decreases children_of(doc).len(),
{
    first_element(children_of(doc))
}

pub open spec fn first_element(cs: Seq<XmlNodeV>) -> Option<XmlNodeV>
    decreases cs.len(),
{
    if cs.len() == 0 {
        None
    } else if is_element(cs[0]) {
        Some(cs[0])
    } else {
        first_element(cs.skip(1))
    }
}

/// The metadata of an FB2 book before its description is read.
pub open spec fn fb2_default_metadata() -> MetadataV {
    MetadataV {
        title: "Unknown Title"@,
        authors: seq!["Unknown Author"@],
        series_name: None,
        series_index: None,
        genres: Seq::empty(),
        annotation: None,
        cover_image_key: None,
        format: BookFormat::Fb2,
    }
}

/// The metadata of an FB2 root element: from `description/title-info`.
pub open spec fn fb2_book_metadata(root: XmlNodeV) -> MetadataV {
    match first_named(children_of(root), "description"@) {
        Some(d) => match first_named(children_of(d), "title-info"@) {
            Some(ti) => fb2_metadata(ti, fb2_default_metadata()),
            None => fb2_default_metadata(),
        },
        None => fb2_default_metadata(),
    }
}

/// The blocks and contents entries of the `body` elements among `cs`.
pub open spec fn fb2_bodies(cs: Seq<XmlNodeV>) -> (Seq<BlockV>, Seq<TocV>)
    decreases cs.len(),
{
    if cs.len() == 0 {
        (Seq::empty(), Seq::empty())
    } else {
        let prev = fb2_bodies(cs.drop_last());
        let c = cs.last();
        if is_element(c) && local_name(c) == "body"@ {
            let b = body_fold(children_of(c), prev.0.len() as int);
            (prev.0 + b.0, prev.1 + b.1)
        } else {
            prev
        }
    }
}

fn first_named_exec<'a>(cs: &'a Vec<XmlNode>, name: &str) -> (r: Option<&'a XmlNode>)
    ensures
        match r {
            Some(n) => first_named(xviews(cs@), name@) == Some(xview(*n)),
            None => first_named(xviews(cs@), name@) is None,
        },
{
    let mut i: usize = 0;
    proof {
        lemma_xviews_len(cs@);
        assert(xviews(cs@).skip(0) =~= xviews(cs@));
    }
    while i < cs.len()
        invariant
            i <= cs@.len(),
            xviews(cs@).len() == cs@.len(),
            first_named(xviews(cs@), name@) == first_named(xviews(cs@).skip(i as int), name@),
        decreases cs.len() - i,
    {
        proof {
            lemma_xviews_index(cs@, i as int);
            assert(xviews(cs@).skip(i as int)[0] == xview(cs@[i as int]));
            assert(xviews(cs@).skip(i as int).skip(1) =~= xviews(cs@).skip(i + 1));
        }
        if name_is(&cs[i], name) {
            return Some(&cs[i]);
        }
        i = i + 1;
    }
    None
}

/// The root element of a document node.
pub fn root_element_exec(doc: &XmlNode) -> (r: Option<&XmlNode>)
    ensures
        match r {
            Some(n) => root_element(xview(*doc)) == Some(xview(*n)),
            None => root_element(xview(*doc)) is None,
        },
{
    match doc {
        XmlNode::Element { children, .. } => {
            let mut i: usize = 0;
            proof {
                lemma_xviews_len(children@);
                assert(xviews(children@).skip(0) =~= xviews(children@));
            }
            while i < children.len()
                invariant
                    i <= children@.len(),
                    xviews(children@).len() == children@.len(),
                    root_element(xview(*doc)) == first_element(xviews(children@)),
                    first_element(xviews(children@)) == first_element(xviews(children@).skip(i as int)),
                decreases children.len() - i,
            {
                proof {
                    lemma_xviews_index(children@, i as int);
                    assert(xviews(children@).skip(i as int)[0] == xview(children@[i as int]));
                    assert(xviews(children@).skip(i as int).skip(1) =~= xviews(children@).skip(i + 1));
                }
                match &children[i] {
                    XmlNode::Element { .. } => {
                        return Some(&children[i]);
                    },
                    _ => {},
                }
                i = i + 1;
            }
            None
        },
        _ => {
            assert(children_of(xview(*doc)) =~= Seq::<XmlNodeV>::empty());
            None
        },
    }
}

/// The book that an FB2 root element describes (see `fb2_book_metadata`,
/// `fb2_bodies` and `fb2_resource`), read from the file at `file_path`
/// and identified by that path.
pub fn fb2_book_from_root(root: &XmlNode, file_path: &str) -> (r: Book)
    ensures
        r.metadata@ == fb2_book_metadata(xview(*root)),
        bviews(r.content@) == fb2_bodies(children_of(xview(*root))).0,
        tviews(r.toc@) == fb2_bodies(children_of(xview(*root))).1,
        forall|k: Seq<char>| #[trigger] opt_bytes(r.resources.lookup(k)) == fb2_resource(children_of(xview(*root)), k),
        r.file_path@ == file_path@,
        r.id@ == sha1_hex_of(file_path.spec_bytes()),
{
    let mut metadata = Metadata::default();
    let empty: Vec<XmlNode> = Vec::new();
    let cs = match root {
        XmlNode::Element { children, .. } => children,
        _ => &empty,
    };
    assert(xviews(cs@) == children_of(xview(*root))) by {
        assert(xviews(empty@) =~= Seq::<XmlNodeV>::empty());
    }
    assert(metadata@ == fb2_default_metadata()) by {
        assert(str_views(metadata.authors@) =~= seq!["Unknown Author"@]);
        assert(str_views(metadata.genres@) =~= Seq::<Seq<char>>::empty());
    }
    let resources = read_binaries(cs);
    match first_named_exec(cs, "description") {
        Some(d) => match d {
            XmlNode::Element { children: dc, .. } => match first_named_exec(dc, "title-info") {
                Some(ti) => parse_title_info(ti, &mut metadata),
                None => {},
            },
            _ => {},
        },
        None => {},
    }
    let mut content: Vec<Block> = Vec::new();
    let mut toc: Vec<TocItem> = Vec::new();
    let mut i: usize = 0;
    proof {
        lemma_xviews_len(cs@);
        assert(xviews(cs@.take(0)) =~= Seq::<XmlNodeV>::empty());
        assert(bviews(content@) =~= Seq::<BlockV>::empty());
        assert(tviews(toc@) =~= Seq::<TocV>::empty());
    }
    while i < cs.len()
        invariant
            i <= cs@.len(),
            bviews(content@) == fb2_bodies(xviews(cs@.take(i as int))).0,
            tviews(toc@) == fb2_bodies(xviews(cs@.take(i as int))).1,
        decreases cs.len() - i,
    {
        let ghost x = xview(cs@[i as int]);
        proof {
            lemma_xviews_take(cs@, i as int);
            let xs = xviews(cs@.take(i as int));
            assert(xs.push(x).drop_last() =~= xs);
            assert(xs.push(x).last() == x);
            lemma_bviews_len(content@);
        }
        match &cs[i] {
            XmlNode::Element { name, children, .. } => {
                if str_eq(name.as_str(), "body") {
                    parse_body(children, &mut content, &mut toc);
                }
            },
            _ => {},
        }
        i = i + 1;
    }
    assert(cs@.take(cs@.len() as int) =~= cs@);
    let id = book_id_for_path(file_path);
    let mut book = Book::new(id, owned(file_path), metadata);
    book.content = content;
    book.toc = toc;
    book.resources = resources;
    book
}

proof fn lemma_info_format(cs: Seq<XmlNodeV>, m0: MetadataV)
    ensures
        info_fold(cs, m0).meta.format == m0.format,
    decreases cs.len(),
{
    if cs.len() > 0 {
        lemma_info_format(cs.drop_last(), m0);
    }
}

proof fn lemma_book_metadata_format(root: XmlNodeV)
    ensures
        fb2_book_metadata(root).format == BookFormat::Fb2,
{
    match first_named(children_of(root), "description"@) {
        Some(d) => match first_named(children_of(d), "title-info"@) {
            Some(ti) => lemma_info_format(children_of(ti), fb2_default_metadata()),
            None => {},
        },
        None => {},
    }
}

/// `book` is the book of the FB2 root element `root` read from `path`,
/// in format `format`.
pub open spec fn fb2_book_is(book: Book, root: XmlNodeV, path: Seq<char>, format: BookFormat) -> bool {
    &&& book.metadata@ == (MetadataV { format, ..fb2_book_metadata(root) })
    &&& bviews(book.content@) == fb2_bodies(children_of(root)).0
    &&& tviews(book.toc@) == fb2_bodies(children_of(root)).1
    &&& forall|k: Seq<char>| #[trigger] opt_bytes(book.resources.lookup(k)) == fb2_resource(children_of(root), k)
    &&& book.file_path@ == path
    &&& book.id@ == sha1_hex_of(encode_utf8(path))
}

/// What parsing the bytes of an FB2 document gives: the bytes are decoded
/// (see `decoded_text`) and parsed as XML, and the book is that of the
/// root element; the errors of each step come out as errors.
pub open spec fn fb2_outcome(bytes: Seq<u8>, path: Seq<char>, format: BookFormat, r: Result<Book>) -> bool {
    match decoded_text(bytes) {
        Err(_) => r is Err,
        Ok(text) => match xml_records(text) {
            Err(m) => r matches Err(AppError::Parse(msg)) && msg@ == "FB2 XML parse error: "@ + m,
            Ok(recs) => match (if recs.len() > 0 { root_element(document_tree(recs)) } else { None }) {
                None => r matches Err(AppError::Parse(_)),
                Some(root) => r matches Ok(book) && fb2_book_is(book, root, path, format),
            },
        },
    }
}

/// Parses an FB2 document read from `file_path` (see `fb2_outcome`).
pub fn parse_fb2_bytes(bytes: &[u8], file_path: &str) -> (r: Result<Book>)
    ensures
        fb2_outcome(bytes@, file_path@, BookFormat::Fb2, r),
{
    let text = match decode_bytes(bytes) {
        Ok(t) => t,
        Err(e) => {
            return Err(e);
        },
    };
    match parse_xml(text.as_str()) {
        Ok(doc) => match root_element_exec(&doc) {
            Some(root) => {
                let book = fb2_book_from_root(root, file_path);
                proof {
                    lemma_book_metadata_format(xview(*root));
                }
                assert(book.metadata@ == (MetadataV { format: BookFormat::Fb2, ..fb2_book_metadata(xview(*root)) }));
                Ok(book)
            },
            None => Err(AppError::Parse(owned("FB2 XML parse error: the document has no root element"))),
        },
        Err(m) => {
            let mut msg = owned("FB2 XML parse error: ");
            msg.append(m.as_str());
            Err(AppError::Parse(msg))
        },
    }
}

/// The position of the member holding the book in a zipped FB2: the first
/// whose name, lowercased, ends with `.fb2` or `.xml`.
pub open spec fn fb2_member(names: Seq<Seq<char>>) -> Option<int>
    decreases names.len(),
{
    if names.len() == 0 {
        None
    } else if ends_with(lowercase(names[0]), ".fb2"@) || ends_with(lowercase(names[0]), ".xml"@) {
        Some(0)
    } else {
        match fb2_member(names.skip(1)) {
            Some(i) => Some(i + 1),
            None => None,
        }
    }
}

/// What parsing a zipped FB2 gives: the first member named `*.fb2` or
/// `*.xml` is parsed (see `fb2_outcome`), the book's format being
/// `Fb2Zip`; the errors of each step come out as errors.
pub open spec fn fb2_zip_outcome(archive: Seq<u8>, path: Seq<char>, r: Result<Book>) -> bool {
    match zip_open_failure(archive) {
        Some(m) => r matches Err(AppError::Parse(msg)) && msg@ == "Failed to open ZIP archive: "@ + m,
        None => match zip_names(archive) {
            Err(m) => r matches Err(AppError::Parse(msg)) && msg@ == "Zip read error: "@ + m,
            Ok(names) => match fb2_member(names) {
                None => r matches Err(AppError::Parse(msg)) && msg@ == "No .fb2 file found inside ZIP archive"@,
                Some(i) => match zip_member(archive, names[i]) {
                    Err(m) => r matches Err(AppError::Io(msg)) && msg@ == m,
                    Ok(bytes) => fb2_outcome(bytes, path, BookFormat::Fb2Zip, r),
                },
            },
        },
    }
}

/// Parses a zipped FB2 read from `file_path`: the first member named
/// `*.fb2` or `*.xml` is parsed, the book's format being `Fb2Zip`.
pub fn parse_fb2_zip_bytes(archive: &[u8], file_path: &str) -> (r: Result<Book>)
    ensures
        fb2_zip_outcome(archive@, file_path@, r),
{
    match zip_open_error(archive) {
        Some(m) => {
            let mut msg = owned("Failed to open ZIP archive: ");
            msg.append(m.as_str());
            return Err(AppError::Parse(msg));
        },
        None => {},
    }
    let names = match zip_entry_names(archive) {
        Ok(n) => n,
        Err(m) => {
            let mut msg = owned("Zip read error: ");
            msg.append(m.as_str());
            return Err(AppError::Parse(msg));
        },
    };
    let ghost nv = string_views(names@);
    let mut i: usize = 0;
    assert(nv.skip(0) =~= nv);
    while i < names.len()
        invariant
            i <= names@.len(),
            nv == string_views(names@),
            zip_open_failure(archive@) is None,
            zip_names(archive@) == Ok::<Seq<Seq<char>>, Seq<char>>(nv),
            fb2_member(nv) == match fb2_member(nv.skip(i as int)) {
                Some(j) => Some(j + i),
                None => None::<int>,
            },
        decreases names.len() - i,
    {
        let low = chars_of(lowercase_string(names[i].as_str()).as_str());
        assert(nv.skip(i as int)[0] == names@[i as int]@);
        if ends_with_exec(&low, ".fb2") || ends_with_exec(&low, ".xml") {
            proof {
                assert(nv.skip(i as int)[0] == nv[i as int]);
                assert(fb2_member(nv.skip(i as int)) == Some(0int));
                assert(fb2_member(nv) == Some(i as int));
            }
            let bytes = match zip_read(archive, names[i].as_str()) {
                Ok(b) => b,
                Err(m) => {
                    return Err(AppError::Io(m));
                },
            };
            let r = parse_fb2_bytes(bytes.as_slice(), file_path);
            return match r {
                Ok(mut book) => {
                    book.metadata.format = BookFormat::Fb2Zip;
                    Ok(book)
                },
                Err(e) => Err(e),
            };
        }
        assert(nv.skip(i as int).skip(1) =~= nv.skip(i + 1));
        i = i + 1;
    }
    assert(nv.skip(names@.len() as int).len() == 0);
    Err(AppError::Parse(owned("No .fb2 file found inside ZIP archive")))
}

} // verus!
