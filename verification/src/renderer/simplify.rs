//! Simplified reading mode: nested and decorated blocks are flattened into
//! plain paragraphs while inline emphasis is kept.
use crate::formats::model::{
    bview, bviews, image_label, item_views, iview, iviews, make_image_label, Block, BlockV, Inline,
    InlineV, ListItem, PoemStanza, TableCell, TableRow,
};
use crate::text::owned;
use vstd::prelude::*;

verus! {

/// What simplification makes of one inline element.
pub open spec fn simp_inline(i: Inline) -> Seq<InlineV>
    decreases i,
{
    match i {
        Inline::Text(t) => seq![InlineV::Text(t@)],
        Inline::Code(t) => seq![InlineV::Code(t@)],
        Inline::Bold(c) => seq![InlineV::Bold(simp_inlines(c@))],
        Inline::Italic(c) => seq![InlineV::Italic(simp_inlines(c@))],
        Inline::Underline(c) => seq![InlineV::Underline(simp_inlines(c@))],
        Inline::Strike(c) => seq![InlineV::Strike(simp_inlines(c@))],
        Inline::Link { inlines, .. } => simp_inlines(inlines@),
        Inline::Hidden(_) => Seq::empty(),
        Inline::Image { key, alt } => seq![InlineV::Text(image_label(alt, "[Image: "@, key@))],
        Inline::LineBreak => seq![InlineV::LineBreak],
    }
}

/// What simplification makes of a run of inline elements: links are
/// replaced by their content, hidden content is dropped, images become
/// their label, everything else keeps its formatting.
pub open spec fn simp_inlines(s: Seq<Inline>) -> Seq<InlineV>
    decreases s,
{
    if s.len() == 0 {
        Seq::empty()
    } else {
        simp_inlines(s.drop_last()) + simp_inline(s.last())
    }
}

pub proof fn lemma_simp_inlines_concat(a: Seq<Inline>, b: Seq<Inline>)
    ensures
        simp_inlines(a + b) == simp_inlines(a) + simp_inlines(b),
    decreases b.len(),
{
    if b.len() == 0 {
        assert(a + b =~= a);
    } else {
        lemma_simp_inlines_concat(a, b.drop_last());
        assert((a + b).drop_last() =~= a + b.drop_last());
    }
}

/// Inline elements after simplification, appended to `out`.
fn simplify_inlines_into(inlines: &Vec<Inline>, out: &mut Vec<Inline>)
    ensures
        iviews(final(out)@) == iviews(old(out)@) + simp_inlines(inlines@),
    decreases inlines@, 0nat,
{
    let mut i: usize = 0;
    while i < inlines.len()
        invariant
            i <= inlines.len(),
            iviews(out@) == iviews(old(out)@) + simp_inlines(inlines@.take(i as int)),
        decreases inlines.len() - i,
    {
        let ghost before = out@;
        assert(inlines@.take(i + 1).drop_last() =~= inlines@.take(i as int));
        match &inlines[i] {
            Inline::Text(t) => {
                out.push(Inline::Text(owned(t.as_str())));
                proof { lemma_iviews_push(before, out@.last()); assert(out@ =~= before.push(out@.last())); }
            },
            Inline::Code(t) => {
                out.push(Inline::Code(owned(t.as_str())));
                proof { lemma_iviews_push(before, out@.last()); assert(out@ =~= before.push(out@.last())); }
            },
            Inline::Bold(c) => {
                let inner = simplify_inlines(c);
                out.push(Inline::Bold(inner));
                proof { lemma_iviews_push(before, out@.last()); assert(out@ =~= before.push(out@.last())); }
            },
            Inline::Italic(c) => {
                let inner = simplify_inlines(c);
                out.push(Inline::Italic(inner));
                proof { lemma_iviews_push(before, out@.last()); assert(out@ =~= before.push(out@.last())); }
            },
            Inline::Underline(c) => {
                let inner = simplify_inlines(c);
                out.push(Inline::Underline(inner));
                proof { lemma_iviews_push(before, out@.last()); assert(out@ =~= before.push(out@.last())); }
            },
            Inline::Strike(c) => {
                let inner = simplify_inlines(c);
                out.push(Inline::Strike(inner));
                proof { lemma_iviews_push(before, out@.last()); assert(out@ =~= before.push(out@.last())); }
            },
            Inline::Link { inlines: c, .. } => {
                simplify_inlines_into(c, out);
            },
            Inline::Hidden(_) => {},
            Inline::Image { key, alt } => {
                let label = make_image_label(alt, "[Image: ", key.as_str());
                out.push(Inline::Text(label));
                proof { lemma_iviews_push(before, out@.last()); assert(out@ =~= before.push(out@.last())); }
            },
            Inline::LineBreak => {
                out.push(Inline::LineBreak);
                proof { lemma_iviews_push(before, out@.last()); assert(out@ =~= before.push(out@.last())); }
            },
        }
        assert(inlines@.take(i + 1).last() == inlines@[i as int]);
        assert(iviews(out@) =~= iviews(before) + simp_inline(inlines@[i as int]));
        assert(iviews(out@) =~= iviews(old(out)@) + simp_inlines(inlines@.take(i + 1)));
        i = i + 1;
    }
    assert(inlines@.take(inlines.len() as int) =~= inlines@);
}

/// The inline elements of a simplified paragraph.
fn simplify_inlines(inlines: &Vec<Inline>) -> (r: Vec<Inline>)
    ensures
        iviews(r@) == simp_inlines(inlines@),
    decreases inlines@, 1nat,
{
    let mut out: Vec<Inline> = Vec::new();
    simplify_inlines_into(inlines, &mut out);
    out
}

/// A table row flattened into one run: every cell's simplified content
/// followed by ` | `.
pub open spec fn simp_row(cells: Seq<TableCell>) -> Seq<InlineV>
    decreases cells.len(),
{
    if cells.len() == 0 {
        Seq::empty()
    } else {
        simp_row(cells.drop_last()) + simp_inlines(cells.last().inlines@) + seq![InlineV::Text(" | "@)]
    }
}

/// Each table row with at least one cell becomes one paragraph.
pub open spec fn simp_rows(rows: Seq<TableRow>) -> Seq<BlockV>
    decreases rows.len(),
{
    if rows.len() == 0 {
        Seq::empty()
    } else {
        let r = rows.last();
        simp_rows(rows.drop_last()) + if r.cells@.len() > 0 {
            seq![BlockV::Paragraph(simp_row(r.cells@))]
        } else {
            Seq::empty()
        }
    }
}

/// Each line of a stanza becomes one paragraph.
pub open spec fn simp_lines(lines: Seq<Vec<Inline>>) -> Seq<BlockV>
    decreases lines.len(),
{
    if lines.len() == 0 {
        Seq::empty()
    } else {
        simp_lines(lines.drop_last()).push(BlockV::Paragraph(simp_inlines(lines.last()@)))
    }
}

pub open spec fn simp_stanzas(stanzas: Seq<PoemStanza>) -> Seq<BlockV>
    decreases stanzas.len(),
{
    if stanzas.len() == 0 {
        Seq::empty()
    } else {
        simp_stanzas(stanzas.drop_last()) + simp_lines(stanzas.last().lines@)
    }
}

pub open spec fn simp_items(items: Seq<ListItem>) -> Seq<Seq<InlineV>>
    decreases items.len(),
{
    if items.len() == 0 {
        Seq::empty()
    } else {
        simp_items(items.drop_last()).push(simp_inlines(items.last().inlines@))
    }
}

/// What simplification makes of one block.
pub open spec fn simp_block(b: Block) -> Seq<BlockV>
    decreases b,
{
    match b {
        Block::Paragraph(i) => seq![BlockV::Paragraph(simp_inlines(i@))],
        Block::Heading { level, inlines } => seq![
            BlockV::Heading { level, inlines: simp_inlines(inlines@) },
        ],
        Block::Quote(bs) => simp_blocks(bs@),
        Block::Epigraph(bs) => simp_blocks(bs@),
        Block::Annotation(bs) => simp_blocks(bs@),
        Block::Hidden(_) => Seq::empty(),
        Block::List { ordered, items } => seq![
            BlockV::List { ordered, items: simp_items(items@) },
        ],
        Block::Poem { stanzas } => simp_stanzas(stanzas@),
        Block::Table { rows } => simp_rows(rows@),
        Block::Image { key, alt } => seq![
            BlockV::Paragraph(seq![InlineV::Text(image_label(alt, "[Image: "@, key@))]),
        ],
        Block::Empty => seq![BlockV::Empty],
    }
}

/// What simplification makes of a sequence of blocks: quotes, epigraphs
/// and annotations are replaced by their (simplified) content, hidden
/// blocks are dropped, poem lines and table rows become paragraphs and
/// images become a paragraph holding their label.
pub open spec fn simp_blocks(s: Seq<Block>) -> Seq<BlockV>
    decreases s,
{
    if s.len() == 0 {
        Seq::empty()
    } else {
        simp_blocks(s.drop_last()) + simp_block(s.last())
    }
}

proof fn lemma_bviews_push(v: Seq<Block>, b: Block)
    ensures
        bviews(v.push(b)) == bviews(v).push(bview(b)),
{
    assert(v.push(b).drop_last() =~= v);
}

proof fn lemma_iviews_push(v: Seq<Inline>, b: Inline)
    ensures
        iviews(v.push(b)) == iviews(v).push(iview(b)),
{
    assert(v.push(b).drop_last() =~= v);
}

fn simplify_row(cells: &Vec<TableCell>) -> (r: Vec<Inline>)
    ensures
        iviews(r@) == simp_row(cells@),
        r@.len() == 0 <==> cells@.len() == 0,
{
    let mut out: Vec<Inline> = Vec::new();
    let mut i: usize = 0;
    while i < cells.len()
        invariant
            i <= cells.len(),
            iviews(out@) == simp_row(cells@.take(i as int)),
            out@.len() == 0 <==> i == 0,
        decreases cells.len() - i,
    {
        assert(cells@.take(i + 1).drop_last() =~= cells@.take(i as int));
        simplify_inlines_into(&cells[i].inlines, &mut out);
        let ghost mid = out@;
        proof {
            reveal_strlit(" | ");
        }
        out.push(Inline::Text(owned(" | ")));
        proof {
            lemma_iviews_push(mid, out@.last());
            assert(out@ =~= mid.push(out@.last()));
        }
        i = i + 1;
    }
    assert(cells@.take(cells.len() as int) =~= cells@);
    out
}

/// Appends the simplified form of `blocks` to `out`.
fn simplify_blocks_into(blocks: &[Block], out: &mut Vec<Block>)
    ensures
        bviews(final(out)@) == bviews(old(out)@) + simp_blocks(blocks@),
    decreases blocks@,
{
    let mut i: usize = 0;
    while i < blocks.len()
        invariant
            i <= blocks.len(),
            bviews(out@) == bviews(old(out)@) + simp_blocks(blocks@.take(i as int)),
        decreases blocks.len() - i,
    {
        let ghost before = out@;
        assert(blocks@.take(i + 1).drop_last() =~= blocks@.take(i as int));
        match &blocks[i] {
            Block::Paragraph(inl) => {
                let v = simplify_inlines(inl);
                out.push(Block::Paragraph(v));
                proof { lemma_bviews_push(before, out@.last()); assert(out@ =~= before.push(out@.last())); }
            },
            Block::Heading { level, inlines } => {
                let v = simplify_inlines(inlines);
                out.push(Block::Heading { level: *level, inlines: v });
                proof { lemma_bviews_push(before, out@.last()); assert(out@ =~= before.push(out@.last())); }
            },
            Block::Quote(inner) => {
                simplify_blocks_into(inner.as_slice(), out);
            },
            Block::Epigraph(inner) => {
                simplify_blocks_into(inner.as_slice(), out);
            },
            Block::Annotation(inner) => {
                simplify_blocks_into(inner.as_slice(), out);
            },
            Block::Hidden(_) => {},
            Block::List { ordered, items } => {
                let mut simple_items: Vec<ListItem> = Vec::new();
                let mut k: usize = 0;
                while k < items.len()
                    invariant
                        k <= items.len(),
                        simple_items@.len() == k,
                        item_views(simple_items@) == simp_items(items@.take(k as int)),
                    decreases items.len() - k,
                {
                    let ghost prev = simple_items@;
                    let v = simplify_inlines(&items[k].inlines);
                    simple_items.push(ListItem { inlines: v });
                    assert(items@.take(k + 1).drop_last() =~= items@.take(k as int));
                    assert(simple_items@.drop_last() =~= prev);
                    k = k + 1;
                }
                assert(items@.take(items.len() as int) =~= items@);
                out.push(Block::List { ordered: *ordered, items: simple_items });
                proof { lemma_bviews_push(before, out@.last()); assert(out@ =~= before.push(out@.last())); }
            },
            Block::Poem { stanzas } => {
                let mut s: usize = 0;
                while s < stanzas.len()
                    invariant
                        s <= stanzas.len(),
                        bviews(out@) == bviews(before) + simp_stanzas(stanzas@.take(s as int)),
                    decreases stanzas.len() - s,
                {
                    let ghost at_stanza = out@;
                    let lines = &stanzas[s].lines;
                    let mut l: usize = 0;
                    while l < lines.len()
                        invariant
                            l <= lines.len(),
                            bviews(out@) == bviews(at_stanza) + simp_lines(lines@.take(l as int)),
                        decreases lines.len() - l,
                    {
                        let ghost at_line = out@;
                        let v = simplify_inlines(&lines[l]);
                        out.push(Block::Paragraph(v));
                        proof {
                            lemma_bviews_push(at_line, out@.last());
                            assert(out@ =~= at_line.push(out@.last()));
                            assert(lines@.take(l + 1).drop_last() =~= lines@.take(l as int));
                        }
                        l = l + 1;
                    }
                    assert(lines@.take(lines.len() as int) =~= lines@);
                    assert(stanzas@.take(s + 1).drop_last() =~= stanzas@.take(s as int));
                    s = s + 1;
                }
                assert(stanzas@.take(stanzas.len() as int) =~= stanzas@);
            },
            Block::Table { rows } => {
                let mut r: usize = 0;
                while r < rows.len()
                    invariant
                        r <= rows.len(),
                        bviews(out@) == bviews(before) + simp_rows(rows@.take(r as int)),
                    decreases rows.len() - r,
                {
                    let ghost at_row = out@;
                    let row_inlines = simplify_row(&rows[r].cells);
                    if row_inlines.len() > 0 {
                        out.push(Block::Paragraph(row_inlines));
                        proof {
                            lemma_bviews_push(at_row, out@.last());
                            assert(out@ =~= at_row.push(out@.last()));
                        }
                    }
                    assert(rows@.take(r + 1).drop_last() =~= rows@.take(r as int));
                    r = r + 1;
                }
                assert(rows@.take(rows.len() as int) =~= rows@);
            },
            Block::Image { key, alt } => {
                let label = make_image_label(alt, "[Image: ", key.as_str());
                let mut v: Vec<Inline> = Vec::new();
                v.push(Inline::Text(label));
                proof { lemma_iviews_push(Seq::empty(), v@[0]); assert(v@ =~= Seq::<Inline>::empty().push(v@[0])); }
                out.push(Block::Paragraph(v));
                proof { lemma_bviews_push(before, out@.last()); assert(out@ =~= before.push(out@.last())); }
            },
            Block::Empty => {
                out.push(Block::Empty);
                proof { lemma_bviews_push(before, out@.last()); assert(out@ =~= before.push(out@.last())); }
            },
        }
        assert(blocks@.take(i + 1).last() == blocks@[i as int]);
        assert(bviews(out@) =~= bviews(before) + simp_block(blocks@[i as int]));
        assert(bviews(out@) =~= bviews(old(out)@) + simp_blocks(blocks@.take(i + 1)));
        i = i + 1;
    }
    assert(blocks@.take(blocks.len() as int) =~= blocks@);
}

// ---------------------------------------------------------------------
// The shape of simplified content

/// Inline content without links, images or hidden parts at any depth:
/// text, code and line breaks, possibly under emphasis.
pub open spec fn plain_inline(i: InlineV) -> bool
    decreases i,
{
    match i {
        InlineV::Text(_) => true,
        InlineV::Code(_) => true,
        InlineV::LineBreak => true,
        InlineV::Bold(c) => plain_inlines(c),
        InlineV::Italic(c) => plain_inlines(c),
        InlineV::Underline(c) => plain_inlines(c),
        InlineV::Strike(c) => plain_inlines(c),
        InlineV::Link { .. } => false,
        InlineV::Image { .. } => false,
        InlineV::Hidden(_) => false,
    }
}

pub open spec fn plain_inlines(s: Seq<InlineV>) -> bool
    decreases s,
{
    s.len() == 0 || (plain_inlines(s.drop_last()) && plain_inline(s.last()))
}

/// A block of simplified content: a paragraph, a heading, a list or an
/// empty block, whose inline content is plain.
pub open spec fn plain_block(b: BlockV) -> bool {
    match b {
        BlockV::Paragraph(i) => plain_inlines(i),
        BlockV::Heading { inlines, .. } => plain_inlines(inlines),
        BlockV::List { items, .. } => plain_items(items),
        BlockV::Empty => true,
        _ => false,
    }
}

pub open spec fn plain_items(items: Seq<Seq<InlineV>>) -> bool {
    forall|k: int| 0 <= k < items.len() ==> plain_inlines(#[trigger] items[k])
}

pub open spec fn plain_blocks(s: Seq<BlockV>) -> bool {
    forall|k: int| 0 <= k < s.len() ==> plain_block(#[trigger] s[k])
}

proof fn lemma_plain_inlines_concat(a: Seq<InlineV>, b: Seq<InlineV>)
    ensures
        plain_inlines(a + b) == (plain_inlines(a) && plain_inlines(b)),
    decreases b.len(),
{
    if b.len() == 0 {
        assert(a + b =~= a);
    } else {
        lemma_plain_inlines_concat(a, b.drop_last());
        assert((a + b).drop_last() =~= a + b.drop_last());
        assert((a + b).last() == b.last());
    }
}

proof fn lemma_plain_single(i: InlineV)
    ensures
        plain_inlines(seq![i]) == plain_inline(i),
{
    assert(seq![i].drop_last() =~= Seq::<InlineV>::empty());
    assert(plain_inlines(Seq::<InlineV>::empty()));
    assert(seq![i].last() == i);
}

proof fn lemma_plain_blocks_concat(a: Seq<BlockV>, b: Seq<BlockV>)
    requires
        plain_blocks(a),
        plain_blocks(b),
    ensures
        plain_blocks(a + b),
{
    assert forall|k: int| 0 <= k < (a + b).len() implies plain_block(#[trigger] (a + b)[k]) by {
        if k < a.len() {
            assert((a + b)[k] == a[k]);
        } else {
            assert((a + b)[k] == b[k - a.len()]);
        }
    }
}

proof fn lemma_simp_inline_plain(i: Inline)
    ensures
        plain_inlines(simp_inline(i)),
    decreases i,
{
    match i {
        Inline::Text(t) => { lemma_plain_single(InlineV::Text(t@)); },
        Inline::Code(t) => { lemma_plain_single(InlineV::Code(t@)); },
        Inline::Bold(c) => {
            lemma_simp_inlines_plain(c@);
            lemma_plain_single(InlineV::Bold(simp_inlines(c@)));
        },
        Inline::Italic(c) => {
            lemma_simp_inlines_plain(c@);
            lemma_plain_single(InlineV::Italic(simp_inlines(c@)));
        },
        Inline::Underline(c) => {
            lemma_simp_inlines_plain(c@);
            lemma_plain_single(InlineV::Underline(simp_inlines(c@)));
        },
        Inline::Strike(c) => {
            lemma_simp_inlines_plain(c@);
            lemma_plain_single(InlineV::Strike(simp_inlines(c@)));
        },
        Inline::Link { inlines, .. } => { lemma_simp_inlines_plain(inlines@); },
        Inline::Hidden(_) => {},
        Inline::Image { key, alt } => {
            lemma_plain_single(InlineV::Text(image_label(alt, "[Image: "@, key@)));
        },
        Inline::LineBreak => { lemma_plain_single(InlineV::LineBreak); },
    }
}

proof fn lemma_simp_inlines_plain(s: Seq<Inline>)
    ensures
        plain_inlines(simp_inlines(s)),
    decreases s,
{
    if s.len() > 0 {
        lemma_simp_inlines_plain(s.drop_last());
        lemma_simp_inline_plain(s.last());
        lemma_plain_inlines_concat(simp_inlines(s.drop_last()), simp_inline(s.last()));
    }
}

proof fn lemma_simp_row_plain(cells: Seq<TableCell>)
    ensures
        plain_inlines(simp_row(cells)),
    decreases cells.len(),
{
    if cells.len() > 0 {
        lemma_simp_row_plain(cells.drop_last());
        lemma_simp_inlines_plain(cells.last().inlines@);
        lemma_plain_single(InlineV::Text(" | "@));
        lemma_plain_inlines_concat(simp_row(cells.drop_last()), simp_inlines(cells.last().inlines@));
        lemma_plain_inlines_concat(
            simp_row(cells.drop_last()) + simp_inlines(cells.last().inlines@),
            seq![InlineV::Text(" | "@)],
        );
    }
}

proof fn lemma_simp_rows_plain(rows: Seq<TableRow>)
    ensures
        plain_blocks(simp_rows(rows)),
    decreases rows.len(),
{
    if rows.len() > 0 {
        lemma_simp_rows_plain(rows.drop_last());
        let r = rows.last();
        lemma_simp_row_plain(r.cells@);
        let tail = if r.cells@.len() > 0 {
            seq![BlockV::Paragraph(simp_row(r.cells@))]
        } else {
            Seq::empty()
        };
        assert(plain_blocks(tail));
        lemma_plain_blocks_concat(simp_rows(rows.drop_last()), tail);
    }
}

proof fn lemma_simp_lines_plain(lines: Seq<Vec<Inline>>)
    ensures
        plain_blocks(simp_lines(lines)),
    decreases lines.len(),
{
    if lines.len() > 0 {
        lemma_simp_lines_plain(lines.drop_last());
        lemma_simp_inlines_plain(lines.last()@);
        lemma_plain_blocks_concat(
            simp_lines(lines.drop_last()),
            seq![BlockV::Paragraph(simp_inlines(lines.last()@))],
        );
        assert(simp_lines(lines) =~= simp_lines(lines.drop_last()) + seq![
            BlockV::Paragraph(simp_inlines(lines.last()@)),
        ]);
    }
}

proof fn lemma_simp_stanzas_plain(stanzas: Seq<PoemStanza>)
    ensures
        plain_blocks(simp_stanzas(stanzas)),
    decreases stanzas.len(),
{
    if stanzas.len() > 0 {
        lemma_simp_stanzas_plain(stanzas.drop_last());
        lemma_simp_lines_plain(stanzas.last().lines@);
        lemma_plain_blocks_concat(simp_stanzas(stanzas.drop_last()), simp_lines(stanzas.last().lines@));
    }
}

proof fn lemma_simp_items_plain(items: Seq<ListItem>)
    ensures
        plain_items(simp_items(items)),
        simp_items(items).len() == items.len(),
    decreases items.len(),
{
    if items.len() > 0 {
        lemma_simp_items_plain(items.drop_last());
        lemma_simp_inlines_plain(items.last().inlines@);
    }
}

proof fn lemma_simp_block_plain(b: Block)
    ensures
        plain_blocks(simp_block(b)),
    decreases b,
{
    match b {
        Block::Paragraph(i) => { lemma_simp_inlines_plain(i@); },
        Block::Heading { level, inlines } => { lemma_simp_inlines_plain(inlines@); },
        Block::Quote(bs) => { lemma_simp_blocks_plain(bs@); },
        Block::Epigraph(bs) => { lemma_simp_blocks_plain(bs@); },
        Block::Annotation(bs) => { lemma_simp_blocks_plain(bs@); },
        Block::Hidden(_) => {},
        Block::List { ordered, items } => {
            lemma_simp_items_plain(items@);
            assert(plain_block(BlockV::List { ordered, items: simp_items(items@) }));
        },
        Block::Poem { stanzas } => { lemma_simp_stanzas_plain(stanzas@); },
        Block::Table { rows } => { lemma_simp_rows_plain(rows@); },
        Block::Image { key, alt } => {
            lemma_plain_single(InlineV::Text(image_label(alt, "[Image: "@, key@)));
        },
        Block::Empty => {},
    }
}

/// Simplified content holds only paragraphs, headings, lists and empty
/// blocks, and no link, image or hidden part at any depth: links give
/// their content, images their label, emphasis and code are kept.
pub proof fn lemma_simp_blocks_plain(s: Seq<Block>)
    ensures
        plain_blocks(simp_blocks(s)),
    decreases s,
{
    if s.len() > 0 {
        lemma_simp_blocks_plain(s.drop_last());
        lemma_simp_block_plain(s.last());
        lemma_plain_blocks_concat(simp_blocks(s.drop_last()), simp_block(s.last()));
    }
}

proof fn lemma_simp_inline_fixed(i: Inline)
    requires
        plain_inline(iview(i)),
    ensures
        simp_inline(i) == seq![iview(i)],
    decreases i,
{
    match i {
        Inline::Bold(c) => { lemma_simp_inlines_fixed(c@); },
        Inline::Italic(c) => { lemma_simp_inlines_fixed(c@); },
        Inline::Underline(c) => { lemma_simp_inlines_fixed(c@); },
        Inline::Strike(c) => { lemma_simp_inlines_fixed(c@); },
        _ => {},
    }
}

proof fn lemma_simp_inlines_fixed(s: Seq<Inline>)
    requires
        plain_inlines(iviews(s)),
    ensures
        simp_inlines(s) == iviews(s),
    decreases s,
{
    if s.len() > 0 {
        assert(iviews(s).drop_last() =~= iviews(s.drop_last()));
        assert(iviews(s).last() == iview(s.last()));
        lemma_simp_inlines_fixed(s.drop_last());
        lemma_simp_inline_fixed(s.last());
        assert(simp_inlines(s) =~= iviews(s));
    } else {
        assert(simp_inlines(s) =~= iviews(s));
    }
}

proof fn lemma_simp_items_fixed(items: Seq<ListItem>)
    requires
        plain_items(item_views(items)),
    ensures
        simp_items(items) == item_views(items),
    decreases items.len(),
{
    if items.len() > 0 {
        let n = items.len() - 1;
        assert forall|k: int| 0 <= k < item_views(items.drop_last()).len() implies plain_inlines(
            #[trigger] item_views(items.drop_last())[k],
        ) by {
            assert(item_views(items)[k] == item_views(items.drop_last())[k]);
        }
        lemma_simp_items_fixed(items.drop_last());
        let iv = item_views(items);
        assert(iv == item_views(items.drop_last()).push(iviews(items.last().inlines@)));
        assert(iv[iv.len() - 1] == iviews(items.last().inlines@));
        assert(plain_inlines(iv[iv.len() - 1]));
        lemma_simp_inlines_fixed(items.last().inlines@);
        assert(simp_items(items) =~= item_views(items));
    }
}

proof fn lemma_simp_block_fixed(b: Block)
    requires
        plain_block(bview(b)),
    ensures
        simp_block(b) == seq![bview(b)],
{
    match b {
        Block::Paragraph(i) => { lemma_simp_inlines_fixed(i@); },
        Block::Heading { level, inlines } => { lemma_simp_inlines_fixed(inlines@); },
        Block::List { ordered, items } => {
            assert(bview(b) == BlockV::List { ordered, items: item_views(items@) });
            lemma_simp_items_fixed(items@);
        },
        _ => {},
    }
}

/// Simplifying simplified content changes nothing: content that is only
/// paragraphs, headings, lists and empty blocks with plain inline content
/// is its own simplified form.
pub proof fn lemma_simp_blocks_fixed(s: Seq<Block>)
    requires
        plain_blocks(bviews(s)),
    ensures
        simp_blocks(s) == bviews(s),
    decreases s,
{
    if s.len() > 0 {
        assert(bviews(s).drop_last() =~= bviews(s.drop_last()));
        let bv = bviews(s);
        assert(bv == bviews(s.drop_last()).push(bview(s.last())));
        assert(bv[bv.len() - 1] == bview(s.last()));
        assert(plain_block(bv[bv.len() - 1]));
        assert forall|k: int| 0 <= k < bviews(s.drop_last()).len() implies plain_block(
            #[trigger] bviews(s.drop_last())[k],
        ) by {
            assert(bviews(s)[k] == bviews(s.drop_last())[k]);
        }
        lemma_simp_blocks_fixed(s.drop_last());
        lemma_simp_block_fixed(s.last());
        assert(simp_blocks(s) =~= bviews(s));
    } else {
        assert(simp_blocks(s) =~= bviews(s));
    }
}

/// The simplified form of `blocks` (see `simp_blocks`).
pub fn simplify_blocks(blocks: &[Block]) -> (r: Vec<Block>)
    ensures
        bviews(r@) == simp_blocks(blocks@),
        plain_blocks(bviews(r@)),
        simp_blocks(r@) == bviews(r@),
{
    proof { lemma_simp_blocks_plain(blocks@); }
    let mut out: Vec<Block> = Vec::new();
    simplify_blocks_into(blocks, &mut out);
    proof { lemma_simp_blocks_fixed(out@); }
    out
}

} // verus!
