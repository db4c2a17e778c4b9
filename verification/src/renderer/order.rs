//! Lines come out in reading order: each line covers a range of the
//! book's characters, and the ranges follow one another without overlap.
use crate::config::TypographyConfig;
use crate::formats::model::{block_text, blocks_texts, inline_text, inlines_text, Block, Inline, PoemStanza, TableRow};
use crate::search::index::{lemma_blocks_texts_len, lemma_blocks_texts_take, string_views, texts_len, BookSearchIndex};
use crate::renderer::layout::{
    blanks, blocks_chars, build_lines, flush, il, interleave, lay_block, lay_blocks, lay_items, lay_lines,
    lay_rows, lay_stanzas, lemma_build_offset, lemma_lay_block_offset, lemma_lay_blocks_offset,
    lemma_lay_items_offset, lemma_lay_lines_offset, lemma_lay_rows_offset, lemma_lay_stanzas_offset,
    lemma_word_end_bounds, place_spans, place_word, place_words, quoted, text_line, wrap_init, wrap_spans,
    word_end, Lctx, LineV, SpanV, WrapParams, WrapState, spans_len, set_bold, set_italic, set_underline,
    set_strike, set_link, flat_inline, flat_inlines, ctx_span, plain_span, block_chars,
};
use vstd::prelude::*;

verus! {

/// The lines cover ranges of characters within `lo..hi`, each starting
/// where or after the previous one ended.
pub open spec fn in_reading_order(ls: Seq<LineV>, lo: int, hi: int) -> bool {
    &&& forall|i: int| 0 <= i < ls.len() ==> lo <= #[trigger] ls[i].char_start <= ls[i].char_end <= hi
    &&& forall|i: int, j: int| 0 <= i < j < ls.len() ==> #[trigger] ls[i].char_end <= #[trigger] ls[j].char_start
}

proof fn lemma_order_concat(a: Seq<LineV>, b: Seq<LineV>, lo: int, mid: int, hi: int)
    requires
        in_reading_order(a, lo, mid),
        in_reading_order(b, mid, hi),
        lo <= mid <= hi,
    ensures
        in_reading_order(a + b, lo, hi),
{
    let c = a + b;
    assert forall|i: int| 0 <= i < c.len() implies lo <= #[trigger] c[i].char_start <= c[i].char_end <= hi by {
        if i < a.len() {
            assert(c[i] == a[i]);
            assert(lo <= a[i].char_start);
        } else {
            assert(c[i] == b[i - a.len()]);
            assert(mid <= b[i - a.len()].char_start);
        }
    }
    assert forall|i: int, j: int| 0 <= i < j < c.len() implies #[trigger] c[i].char_end <= #[trigger] c[j].char_start by {
        if j < a.len() {
            assert(c[i] == a[i] && c[j] == a[j]);
        } else if i < a.len() {
            assert(c[i] == a[i] && c[j] == b[j - a.len()]);
            assert(lo <= a[i].char_start);
            assert(mid <= b[j - a.len()].char_start);
        } else {
            assert(c[i] == b[i - a.len()] && c[j] == b[j - a.len()]);
        }
    }
}

proof fn lemma_order_push(a: Seq<LineV>, l: LineV, lo: int, hi: int)
    requires
        in_reading_order(a, lo, l.char_start),
        lo <= l.char_start <= l.char_end <= hi,
    ensures
        in_reading_order(a.push(l), lo, hi),
{
    assert(a.push(l) =~= a + seq![l]);
    assert(in_reading_order(seq![l], l.char_start, hi));
    lemma_order_concat(a, seq![l], lo, l.char_start, hi);
}

/// The state of line filling: the lines made so far end where the current
/// line starts, at or before the current offset.
pub open spec fn wrap_ordered(s: WrapState, lo: int) -> bool {
    &&& in_reading_order(s.lines, lo, s.line_start)
    &&& lo <= s.line_start <= s.offset
}

proof fn lemma_place_word_ordered(s: WrapState, st: SpanV, w: Seq<char>, p: WrapParams, lo: int)
    requires
        wrap_ordered(s, lo),
    ensures
        wrap_ordered(place_word(s, st, w, p), lo),
        place_word(s, st, w, p).offset == s.offset + w.len(),
{
    let s1 = if s.width + (crate::renderer::layout::text_width(w) as int) > p.max && s.cur.len() > 0 {
        flush(s, p)
    } else {
        s
    };
    if s.width + (crate::renderer::layout::text_width(w) as int) > p.max && s.cur.len() > 0 {
        let l = text_line(crate::renderer::layout::justify(s.cur, s.width, p), p.block, s.line_start, s.offset);
        lemma_order_push(s.lines, l, lo, s.offset);
    }
    assert(wrap_ordered(s1, lo));
    let ww = crate::renderer::layout::text_width(w) as int;
    if p.hyphenation && ww > p.max && w.len() > 6 {
        let mid = w.len() / 2;
        let l = text_line(
            s1.cur.push(crate::renderer::layout::with_text(st, w.take(mid as int) + "-"@)),
            p.block,
            s1.line_start,
            s1.offset + mid,
        );
        lemma_order_push(s1.lines, l, lo, s1.offset + mid);
    }
}

proof fn lemma_place_words_ordered(s: WrapState, st: SpanV, t: Seq<char>, pos: int, p: WrapParams, lo: int)
    requires
        wrap_ordered(s, lo),
        0 <= pos <= t.len(),
    ensures
        wrap_ordered(place_words(s, st, t, pos, p), lo),
    decreases t.len() - pos,
{
    if pos < t.len() {
        let e = word_end(t, pos);
        lemma_word_end_bounds(t, pos);
        lemma_place_word_ordered(s, st, t.subrange(pos, e), p, lo);
        lemma_place_words_ordered(place_word(s, st, t.subrange(pos, e), p), st, t, e, p, lo);
    }
}

proof fn lemma_place_spans_ordered(s: WrapState, spans: Seq<SpanV>, p: WrapParams, lo: int)
    requires
        wrap_ordered(s, lo),
    ensures
        wrap_ordered(place_spans(s, spans, p), lo),
    decreases spans.len(),
{
    if spans.len() > 0 {
        lemma_place_words_ordered(s, spans[0], spans[0].text, 0, p, lo);
        lemma_place_spans_ordered(place_words(s, spans[0], spans[0].text, 0, p), spans.skip(1), p, lo);
    }
}

proof fn lemma_wrap_ordered(spans: Seq<SpanV>, p: WrapParams, off: int)
    ensures
        in_reading_order(wrap_spans(spans, p, off).0, off, wrap_spans(spans, p, off).1),
        off <= wrap_spans(spans, p, off).1,
{
    let s0 = wrap_init(p, off);
    lemma_place_spans_ordered(s0, spans, p, off);
    let s = place_spans(s0, spans, p);
    if s.cur.len() > 0 {
        lemma_order_push(s.lines, text_line(s.cur, p.block, s.line_start, s.offset), off, s.offset);
    }
}

proof fn lemma_blanks_ordered(k: int, block: int, at: int)
    ensures
        in_reading_order(blanks(k, block, at), at, at),
{
}

proof fn lemma_il_ordered(ls: Seq<LineV>, n: int, sp: int, lo: int, hi: int)
    requires
        in_reading_order(ls, lo, hi),
    ensures
        in_reading_order(il(ls, n, sp), lo, hi),
    decreases ls.len(),
{
    if ls.len() > 0 {
        let last = ls.last();
        let init = ls.drop_last();
        assert(in_reading_order(init, lo, last.char_start)) by {
            assert forall|i: int| 0 <= i < init.len() implies lo <= #[trigger] init[i].char_start
                <= init[i].char_end <= last.char_start by {
                assert(init[i] == ls[i]);
                assert(ls[i].char_end <= ls[ls.len() - 1].char_start);
            }
            assert forall|i: int, j: int| 0 <= i < j < init.len() implies #[trigger] init[i].char_end
                <= #[trigger] init[j].char_start by {
                assert(init[i] == ls[i] && init[j] == ls[j]);
            }
        }
        lemma_il_ordered(init, n, sp, lo, last.char_start);
        assert(lo <= last.char_start <= last.char_end <= hi) by {
            assert(last == ls[ls.len() - 1]);
        }
        assert(in_reading_order(seq![last], last.char_start, last.char_end));
        lemma_order_concat(il(init, n, sp), seq![last], lo, last.char_start, last.char_end);
        let tail = if ls.len() < n {
            blanks(sp - 1, last.block_index, last.char_end)
        } else {
            Seq::empty()
        };
        lemma_blanks_ordered(sp - 1, last.block_index, last.char_end);
        assert(in_reading_order(tail, last.char_end, last.char_end));
        lemma_order_concat(il(init, n, sp) + seq![last], tail, lo, last.char_end, hi);
    }
}

proof fn lemma_interleave_ordered(ls: Seq<LineV>, sp: int, lo: int, hi: int)
    requires
        in_reading_order(ls, lo, hi),
    ensures
        in_reading_order(interleave(ls, sp), lo, hi),
{
    if !(sp <= 1 || ls.len() <= 1) {
        lemma_il_ordered(ls, ls.len() as int, sp, lo, hi);
    }
}

proof fn lemma_quoted_ordered(r: (Seq<LineV>, int), simplified: bool, lo: int)
    requires
        in_reading_order(r.0, lo, r.1),
    ensures
        in_reading_order(quoted(r, simplified).0, lo, quoted(r, simplified).1),
{
    let q = quoted(r, simplified);
    assert forall|i: int| 0 <= i < q.0.len() implies lo <= #[trigger] q.0[i].char_start <= q.0[i].char_end <= q.1 by {
        if !simplified {
            assert(q.0[i].char_start == r.0[i].char_start && q.0[i].char_end == r.0[i].char_end);
        }
    }
    assert forall|i: int, j: int| 0 <= i < j < q.0.len() implies #[trigger] q.0[i].char_end <= #[trigger] q.0[j].char_start by {
        if !simplified {
            assert(q.0[i].char_end == r.0[i].char_end && q.0[j].char_start == r.0[j].char_start);
        }
    }
}

proof fn lemma_lay_block_ordered(b: Block, c: Lctx, off: int)
    ensures
        in_reading_order(lay_block(b, c, off).0, off, lay_block(b, c, off).1),
    decreases b, 1nat,
{
    lemma_lay_block_offset(b, c, off);
    match b {
        Block::Paragraph(inl) => {
            lemma_wrap_ordered(
                crate::renderer::layout::flat_inlines(inl@, false, 0, false, c.css),
                crate::renderer::layout::wp(c, c.indent, c.hyphenation, c.justified),
                off,
            );
        },
        Block::Heading { level, inlines } => {
            lemma_wrap_ordered(
                crate::renderer::layout::flat_inlines(inlines@, true, level, false, c.css),
                crate::renderer::layout::wp(c, 0, false, false),
                off,
            );
        },
        Block::Quote(bs) => {
            lemma_lay_blocks_ordered(bs@, crate::renderer::layout::inner_ctx(c), off);
            lemma_quoted_ordered(lay_blocks(bs@, crate::renderer::layout::inner_ctx(c), off), c.simplified, off);
        },
        Block::Epigraph(bs) => {
            lemma_lay_blocks_ordered(bs@, crate::renderer::layout::inner_ctx(c), off);
            lemma_quoted_ordered(lay_blocks(bs@, crate::renderer::layout::inner_ctx(c), off), c.simplified, off);
        },
        Block::Annotation(bs) => {
            lemma_lay_blocks_ordered(bs@, crate::renderer::layout::inner_ctx(c), off);
            lemma_quoted_ordered(lay_blocks(bs@, crate::renderer::layout::inner_ctx(c), off), c.simplified, off);
        },
        Block::Hidden(bs) => {
            if !c.css {
                lemma_lay_blocks_ordered(bs@, c, off);
            }
        },
        Block::List { ordered, items } => {
            lemma_lay_items_ordered(items@, ordered, c.block, c.measure, c.hyphenation, c.justified, c.css, off);
        },
        Block::Table { rows } => {
            lemma_lay_rows_ordered(rows@, c.block, off);
        },
        Block::Poem { stanzas } => {
            lemma_lay_stanzas_ordered(stanzas@, c.block, c.measure, c.hyphenation, c.css, off);
        },
        _ => {},
    }
}

proof fn lemma_lay_blocks_ordered(bs: Seq<Block>, c: Lctx, off: int)
    ensures
        in_reading_order(lay_blocks(bs, c, off).0, off, lay_blocks(bs, c, off).1),
    decreases bs, 0nat,
{
    lemma_lay_blocks_offset(bs, c, off);
    if bs.len() > 0 {
        lemma_lay_blocks_ordered(bs.drop_last(), c, off);
        let r = lay_blocks(bs.drop_last(), c, off);
        lemma_lay_blocks_offset(bs.drop_last(), c, off);
        lemma_lay_block_ordered(bs.last(), c, r.1);
        lemma_lay_block_offset(bs.last(), c, r.1);
        lemma_order_concat(r.0, lay_block(bs.last(), c, r.1).0, off, r.1, lay_block(bs.last(), c, r.1).1);
    }
}

proof fn lemma_lay_items_ordered(
    items: Seq<crate::formats::model::ListItem>,
    ordered: bool,
    block: int,
    measure: int,
    hyph: bool,
    just: bool,
    css: bool,
    off: int,
)
    ensures
        in_reading_order(
            lay_items(items, ordered, block, measure, hyph, just, css, off).0,
            off,
            lay_items(items, ordered, block, measure, hyph, just, css, off).1,
        ),
    decreases items.len(),
{
    lemma_lay_items_offset(items, ordered, block, measure, hyph, just, css, off);
    if items.len() > 0 {
        lemma_lay_items_ordered(items.drop_last(), ordered, block, measure, hyph, just, css, off);
        let r = lay_items(items.drop_last(), ordered, block, measure, hyph, just, css, off);
        lemma_lay_items_offset(items.drop_last(), ordered, block, measure, hyph, just, css, off);
        let spans = crate::renderer::layout::item_spans(items, ordered, items.len() - 1, css);
        let p = WrapParams { max: measure, indent: 2, block, hyphenation: hyph, justified: just };
        lemma_wrap_ordered(spans, p, r.1);
        lemma_order_concat(r.0, wrap_spans(spans, p, r.1).0, off, r.1, wrap_spans(spans, p, r.1).1);
    }
}

proof fn lemma_lay_rows_ordered(rows: Seq<TableRow>, block: int, off: int)
    ensures
        in_reading_order(lay_rows(rows, block, off).0, off, lay_rows(rows, block, off).1),
    decreases rows.len(),
{
    lemma_lay_rows_offset(rows, block, off);
    if rows.len() > 0 {
        lemma_lay_rows_ordered(rows.drop_last(), block, off);
        let r = lay_rows(rows.drop_last(), block, off);
        lemma_lay_rows_offset(rows.drop_last(), block, off);
        let t = crate::formats::model::row_text(rows.last());
        lemma_order_push(r.0, crate::renderer::layout::row_line(t, block, r.1), off, r.1 + t.len());
    }
}

proof fn lemma_lay_lines_ordered(
    lines: Seq<Vec<crate::formats::model::Inline>>,
    block: int,
    measure: int,
    hyph: bool,
    css: bool,
    off: int,
)
    ensures
        in_reading_order(
            lay_lines(lines, block, measure, hyph, css, off).0,
            off,
            lay_lines(lines, block, measure, hyph, css, off).1,
        ),
        off <= lay_lines(lines, block, measure, hyph, css, off).1,
    decreases lines.len(),
{
    lemma_lay_lines_offset(lines, block, measure, hyph, css, off);
    if lines.len() > 0 {
        lemma_lay_lines_ordered(lines.drop_last(), block, measure, hyph, css, off);
        let r = lay_lines(lines.drop_last(), block, measure, hyph, css, off);
        let spans = crate::renderer::layout::flat_inlines(lines.last()@, false, 0, false, css);
        let p = WrapParams { max: measure, indent: 4, block, hyphenation: hyph, justified: false };
        lemma_wrap_ordered(spans, p, r.1);
        lemma_order_concat(r.0, wrap_spans(spans, p, r.1).0, off, r.1, wrap_spans(spans, p, r.1).1);
    }
}

proof fn lemma_lay_stanzas_ordered(stanzas: Seq<PoemStanza>, block: int, measure: int, hyph: bool, css: bool, off: int)
    ensures
        in_reading_order(
            lay_stanzas(stanzas, block, measure, hyph, css, off).0,
            off,
            lay_stanzas(stanzas, block, measure, hyph, css, off).1,
        ),
    decreases stanzas.len(),
{
    lemma_lay_stanzas_offset(stanzas, block, measure, hyph, css, off);
    if stanzas.len() > 0 {
        lemma_lay_stanzas_ordered(stanzas.drop_last(), block, measure, hyph, css, off);
        let r = lay_stanzas(stanzas.drop_last(), block, measure, hyph, css, off);
        lemma_lay_stanzas_offset(stanzas.drop_last(), block, measure, hyph, css, off);
        lemma_lay_lines_ordered(stanzas.last().lines@, block, measure, hyph, css, r.1);
        let r2 = lay_lines(stanzas.last().lines@, block, measure, hyph, css, r.1);
        lemma_order_concat(r.0, r2.0, off, r.1, r2.1);
    }
}

/// The lines of a book come in reading order: each covers a range of the
/// book's characters, within the book, and each starts where or after the
/// one before it ended; so their starting offsets never decrease.
pub proof fn lemma_layout_in_reading_order(
    blocks: Seq<Block>,
    cfg: TypographyConfig,
    simplified: bool,
    css: bool,
    total: int,
)
    ensures
        in_reading_order(build_lines(blocks, cfg, simplified, css, total).0, 0, blocks_chars(blocks, css) as int),
        forall|i: int, j: int|
            0 <= i <= j < build_lines(blocks, cfg, simplified, css, total).0.len() ==> #[trigger] build_lines(
                blocks,
                cfg,
                simplified,
                css,
                total,
            ).0[i].char_start <= #[trigger] build_lines(blocks, cfg, simplified, css, total).0[j].char_start,
    decreases blocks.len(),
{
    lemma_build_offset(blocks, cfg, simplified, css, total);
    let ls = build_lines(blocks, cfg, simplified, css, total).0;
    if blocks.len() > 0 {
        lemma_layout_in_reading_order(blocks.drop_last(), cfg, simplified, css, total);
        lemma_build_offset(blocks.drop_last(), cfg, simplified, css, total);
        let r = build_lines(blocks.drop_last(), cfg, simplified, css, total);
        let i = blocks.len() - 1;
        let c = Lctx {
            block: i,
            measure: cfg.measure as int,
            indent: if simplified { 0 } else { cfg.paragraph_indent as int },
            simplified,
            hyphenation: cfg.hyphenation,
            justified: cfg.justified,
            css,
        };
        let b = lay_block(blocks.last(), c, r.1);
        lemma_lay_block_ordered(blocks.last(), c, r.1);
        lemma_lay_block_offset(blocks.last(), c, r.1);
        lemma_interleave_ordered(b.0, cfg.line_spacing as int, r.1, b.1);
        let spacing = if simplified { 1 } else { cfg.paragraph_spacing as int };
        let gap = if spacing > 0 && i < total - 1 {
            blanks(spacing, i, b.1)
        } else {
            Seq::empty()
        };
        lemma_blanks_ordered(spacing, i, b.1);
        assert(in_reading_order(gap, b.1, b.1));
        lemma_order_concat(r.0, interleave(b.0, cfg.line_spacing as int), 0, r.1, b.1);
        lemma_order_concat(r.0 + interleave(b.0, cfg.line_spacing as int), gap, 0, b.1, b.1);
    }
    assert forall|i: int, j: int| 0 <= i <= j < ls.len() implies #[trigger] ls[i].char_start <= #[trigger] ls[j].char_start by {
        if i < j {
            assert(ls[i].char_end <= ls[j].char_start);
        }
    }
}

// ---------------------------------------------------------------------
// Contiguity: the lines tile the characters without gaps

/// The lines cover `lo..hi` without gaps: the first starts at `lo`, each
/// next one starts where the one before it ended, the last ends at `hi`
/// (with no lines, `lo == hi`); blank lines cover nothing.
pub open spec fn contiguous(ls: Seq<LineV>, lo: int, hi: int) -> bool {
    &&& ls.len() == 0 ==> lo == hi
    &&& ls.len() > 0 ==> ls[0].char_start == lo && ls[ls.len() - 1].char_end == hi
    &&& forall|i: int, j: int|
        #![trigger ls[i], ls[j]]
        0 <= i && j == i + 1 && j < ls.len() ==> ls[j].char_start == ls[i].char_end
    &&& forall|i: int| 0 <= i < ls.len() && (#[trigger] ls[i]).is_empty_line ==> ls[i].char_start == ls[i].char_end
}

proof fn lemma_contig_concat(a: Seq<LineV>, b: Seq<LineV>, lo: int, mid: int, hi: int)
    requires
        contiguous(a, lo, mid),
        contiguous(b, mid, hi),
    ensures
        contiguous(a + b, lo, hi),
{
    let c = a + b;
    if a.len() > 0 {
        assert(c[0] == a[0]);
    } else {
        assert(c =~= b);
    }
    if b.len() > 0 {
        assert(c[c.len() - 1] == b[b.len() - 1]);
    } else {
        assert(c =~= a);
    }
    assert forall|i: int, j: int| 0 <= i && j == i + 1 && j < c.len() implies #[trigger] c[j].char_start
        == #[trigger] c[i].char_end by {
        if j < a.len() {
            assert(c[i] == a[i] && c[j] == a[j]);
        } else if i >= a.len() {
            assert(c[i] == b[i - a.len()] && c[j] == b[j - a.len()]);
        } else {
            assert(c[i] == a[a.len() - 1] && c[j] == b[0]);
        }
    }
    assert forall|i: int| 0 <= i < c.len() && (#[trigger] c[i]).is_empty_line implies c[i].char_start
        == c[i].char_end by {
        if i < a.len() {
            assert(c[i] == a[i]);
        } else {
            assert(c[i] == b[i - a.len()]);
        }
    }
}

proof fn lemma_contig_push(a: Seq<LineV>, l: LineV, lo: int)
    requires
        contiguous(a, lo, l.char_start),
        l.is_empty_line ==> l.char_start == l.char_end,
    ensures
        contiguous(a.push(l), lo, l.char_end),
{
    assert(a.push(l) =~= a + seq![l]);
    assert(contiguous(seq![l], l.char_start, l.char_end));
    lemma_contig_concat(a, seq![l], lo, l.char_start, l.char_end);
}

/// Line filling keeps the lines made so far contiguous up to where the
/// current line starts; an empty current line starts at the offset.
pub open spec fn wrap_contig(s: WrapState, lo: int) -> bool {
    &&& contiguous(s.lines, lo, s.line_start)
    &&& s.line_start <= s.offset
    &&& s.cur.len() == 0 ==> s.line_start == s.offset
}

proof fn lemma_place_word_contig(s: WrapState, st: SpanV, w: Seq<char>, p: WrapParams, lo: int)
    requires
        wrap_contig(s, lo),
    ensures
        wrap_contig(place_word(s, st, w, p), lo),
{
    let ww = crate::renderer::layout::text_width(w) as int;
    let s1 = if s.width + ww > p.max && s.cur.len() > 0 {
        flush(s, p)
    } else {
        s
    };
    if s.width + ww > p.max && s.cur.len() > 0 {
        let l = text_line(crate::renderer::layout::justify(s.cur, s.width, p), p.block, s.line_start, s.offset);
        lemma_contig_push(s.lines, l, lo);
    }
    assert(wrap_contig(s1, lo));
    if p.hyphenation && ww > p.max && w.len() > 6 {
        let mid = w.len() / 2;
        let l = text_line(
            s1.cur.push(crate::renderer::layout::with_text(st, w.take(mid as int) + "-"@)),
            p.block,
            s1.line_start,
            s1.offset + mid,
        );
        lemma_contig_push(s1.lines, l, lo);
    }
}

proof fn lemma_place_words_contig(s: WrapState, st: SpanV, t: Seq<char>, pos: int, p: WrapParams, lo: int)
    requires
        wrap_contig(s, lo),
        0 <= pos <= t.len(),
    ensures
        wrap_contig(place_words(s, st, t, pos, p), lo),
    decreases t.len() - pos,
{
    if pos < t.len() {
        let e = word_end(t, pos);
        lemma_word_end_bounds(t, pos);
        lemma_place_word_contig(s, st, t.subrange(pos, e), p, lo);
        lemma_place_words_contig(place_word(s, st, t.subrange(pos, e), p), st, t, e, p, lo);
    }
}

proof fn lemma_place_spans_contig(s: WrapState, spans: Seq<SpanV>, p: WrapParams, lo: int)
    requires
        wrap_contig(s, lo),
    ensures
        wrap_contig(place_spans(s, spans, p), lo),
    decreases spans.len(),
{
    if spans.len() > 0 {
        lemma_place_words_contig(s, spans[0], spans[0].text, 0, p, lo);
        lemma_place_spans_contig(place_words(s, spans[0], spans[0].text, 0, p), spans.skip(1), p, lo);
    }
}

proof fn lemma_wrap_contig(spans: Seq<SpanV>, p: WrapParams, off: int)
    ensures
        contiguous(wrap_spans(spans, p, off).0, off, wrap_spans(spans, p, off).1),
{
    let s0 = wrap_init(p, off);
    assert(wrap_contig(s0, off));
    lemma_place_spans_contig(s0, spans, p, off);
    let s = place_spans(s0, spans, p);
    if s.cur.len() > 0 {
        lemma_contig_push(s.lines, text_line(s.cur, p.block, s.line_start, s.offset), off);
    }
}

proof fn lemma_blanks_contig(k: int, block: int, at: int)
    ensures
        contiguous(blanks(k, block, at), at, at),
{
}

proof fn lemma_il_contig(ls: Seq<LineV>, n: int, sp: int, lo: int, hi: int)
    requires
        contiguous(ls, lo, hi),
    ensures
        contiguous(il(ls, n, sp), lo, hi),
    decreases ls.len(),
{
    if ls.len() > 0 {
        let last = ls.last();
        let init = ls.drop_last();
        assert(contiguous(init, lo, last.char_start)) by {
            if init.len() > 0 {
                assert(init[0] == ls[0]);
                assert(init[init.len() - 1] == ls[ls.len() - 2]);
                assert(ls[ls.len() - 1].char_start == ls[ls.len() - 2].char_end);
            }
            assert forall|i: int, j: int| 0 <= i && j == i + 1 && j < init.len() implies #[trigger] init[j].char_start
                == #[trigger] init[i].char_end by {
                assert(init[i] == ls[i] && init[j] == ls[j]);
            }
            assert forall|i: int| 0 <= i < init.len() && (#[trigger] init[i]).is_empty_line implies init[i].char_start
                == init[i].char_end by {
                assert(init[i] == ls[i]);
            }
        }
        lemma_il_contig(init, n, sp, lo, last.char_start);
        assert(last == ls[ls.len() - 1]);
        assert(contiguous(seq![last], last.char_start, last.char_end));
        lemma_contig_concat(il(init, n, sp), seq![last], lo, last.char_start, last.char_end);
        let tail = if ls.len() < n {
            blanks(sp - 1, last.block_index, last.char_end)
        } else {
            Seq::empty()
        };
        lemma_blanks_contig(sp - 1, last.block_index, last.char_end);
        assert(contiguous(tail, last.char_end, last.char_end));
        lemma_contig_concat(il(init, n, sp) + seq![last], tail, lo, last.char_end, hi);
    }
}

proof fn lemma_interleave_contig(ls: Seq<LineV>, sp: int, lo: int, hi: int)
    requires
        contiguous(ls, lo, hi),
    ensures
        contiguous(interleave(ls, sp), lo, hi),
{
    if !(sp <= 1 || ls.len() <= 1) {
        lemma_il_contig(ls, ls.len() as int, sp, lo, hi);
    }
}

proof fn lemma_quoted_contig(r: (Seq<LineV>, int), simplified: bool, lo: int)
    requires
        contiguous(r.0, lo, r.1),
    ensures
        contiguous(quoted(r, simplified).0, lo, quoted(r, simplified).1),
{
    let q = quoted(r, simplified);
    if !simplified {
        assert forall|i: int| 0 <= i < q.0.len() implies #[trigger] q.0[i].char_start == r.0[i].char_start
            && q.0[i].char_end == r.0[i].char_end && q.0[i].is_empty_line == r.0[i].is_empty_line by {}
        if q.0.len() > 0 {
            assert(q.0[0].char_start == r.0[0].char_start);
            assert(q.0[q.0.len() - 1].char_end == r.0[r.0.len() - 1].char_end);
        }
        assert forall|i: int, j: int| 0 <= i && j == i + 1 && j < q.0.len() implies #[trigger] q.0[j].char_start
            == #[trigger] q.0[i].char_end by {
            assert(r.0[j].char_start == r.0[i].char_end);
        }
    }
}

proof fn lemma_lay_block_contig(b: Block, c: Lctx, off: int)
    ensures
        contiguous(lay_block(b, c, off).0, off, lay_block(b, c, off).1),
    decreases b, 1nat,
{
    match b {
        Block::Paragraph(inl) => {
            lemma_wrap_contig(
                crate::renderer::layout::flat_inlines(inl@, false, 0, false, c.css),
                crate::renderer::layout::wp(c, c.indent, c.hyphenation, c.justified),
                off,
            );
        },
        Block::Heading { level, inlines } => {
            lemma_wrap_contig(
                crate::renderer::layout::flat_inlines(inlines@, true, level, false, c.css),
                crate::renderer::layout::wp(c, 0, false, false),
                off,
            );
        },
        Block::Quote(bs) => {
            lemma_lay_blocks_contig(bs@, crate::renderer::layout::inner_ctx(c), off);
            lemma_quoted_contig(lay_blocks(bs@, crate::renderer::layout::inner_ctx(c), off), c.simplified, off);
        },
        Block::Epigraph(bs) => {
            lemma_lay_blocks_contig(bs@, crate::renderer::layout::inner_ctx(c), off);
            lemma_quoted_contig(lay_blocks(bs@, crate::renderer::layout::inner_ctx(c), off), c.simplified, off);
        },
        Block::Annotation(bs) => {
            lemma_lay_blocks_contig(bs@, crate::renderer::layout::inner_ctx(c), off);
            lemma_quoted_contig(lay_blocks(bs@, crate::renderer::layout::inner_ctx(c), off), c.simplified, off);
        },
        Block::Hidden(bs) => {
            if !c.css {
                lemma_lay_blocks_contig(bs@, c, off);
            }
        },
        Block::List { ordered, items } => {
            lemma_lay_items_contig(items@, ordered, c.block, c.measure, c.hyphenation, c.justified, c.css, off);
        },
        Block::Table { rows } => {
            lemma_lay_rows_contig(rows@, c.block, off);
        },
        Block::Poem { stanzas } => {
            lemma_lay_stanzas_contig(stanzas@, c.block, c.measure, c.hyphenation, c.css, off);
        },
        _ => {},
    }
}

proof fn lemma_lay_blocks_contig(bs: Seq<Block>, c: Lctx, off: int)
    ensures
        contiguous(lay_blocks(bs, c, off).0, off, lay_blocks(bs, c, off).1),
    decreases bs, 0nat,
{
    if bs.len() > 0 {
        lemma_lay_blocks_contig(bs.drop_last(), c, off);
        let r = lay_blocks(bs.drop_last(), c, off);
        lemma_lay_block_contig(bs.last(), c, r.1);
        lemma_contig_concat(r.0, lay_block(bs.last(), c, r.1).0, off, r.1, lay_block(bs.last(), c, r.1).1);
    }
}

proof fn lemma_lay_items_contig(
    items: Seq<crate::formats::model::ListItem>,
    ordered: bool,
    block: int,
    measure: int,
    hyph: bool,
    just: bool,
    css: bool,
    off: int,
)
    ensures
        contiguous(
            lay_items(items, ordered, block, measure, hyph, just, css, off).0,
            off,
            lay_items(items, ordered, block, measure, hyph, just, css, off).1,
        ),
    decreases items.len(),
{
    if items.len() > 0 {
        lemma_lay_items_contig(items.drop_last(), ordered, block, measure, hyph, just, css, off);
        let r = lay_items(items.drop_last(), ordered, block, measure, hyph, just, css, off);
        let spans = crate::renderer::layout::item_spans(items, ordered, items.len() - 1, css);
        let p = WrapParams { max: measure, indent: 2, block, hyphenation: hyph, justified: just };
        lemma_wrap_contig(spans, p, r.1);
        lemma_contig_concat(r.0, wrap_spans(spans, p, r.1).0, off, r.1, wrap_spans(spans, p, r.1).1);
    }
}

proof fn lemma_lay_rows_contig(rows: Seq<TableRow>, block: int, off: int)
    ensures
        contiguous(lay_rows(rows, block, off).0, off, lay_rows(rows, block, off).1),
    decreases rows.len(),
{
    if rows.len() > 0 {
        lemma_lay_rows_contig(rows.drop_last(), block, off);
        let r = lay_rows(rows.drop_last(), block, off);
        let t = crate::formats::model::row_text(rows.last());
        lemma_contig_push(r.0, crate::renderer::layout::row_line(t, block, r.1), off);
    }
}

proof fn lemma_lay_lines_contig(
    lines: Seq<Vec<crate::formats::model::Inline>>,
    block: int,
    measure: int,
    hyph: bool,
    css: bool,
    off: int,
)
    ensures
        contiguous(
            lay_lines(lines, block, measure, hyph, css, off).0,
            off,
            lay_lines(lines, block, measure, hyph, css, off).1,
        ),
    decreases lines.len(),
{
    if lines.len() > 0 {
        lemma_lay_lines_contig(lines.drop_last(), block, measure, hyph, css, off);
        let r = lay_lines(lines.drop_last(), block, measure, hyph, css, off);
        let spans = crate::renderer::layout::flat_inlines(lines.last()@, false, 0, false, css);
        let p = WrapParams { max: measure, indent: 4, block, hyphenation: hyph, justified: false };
        lemma_wrap_contig(spans, p, r.1);
        lemma_contig_concat(r.0, wrap_spans(spans, p, r.1).0, off, r.1, wrap_spans(spans, p, r.1).1);
    }
}

proof fn lemma_lay_stanzas_contig(stanzas: Seq<PoemStanza>, block: int, measure: int, hyph: bool, css: bool, off: int)
    ensures
        contiguous(
            lay_stanzas(stanzas, block, measure, hyph, css, off).0,
            off,
            lay_stanzas(stanzas, block, measure, hyph, css, off).1,
        ),
    decreases stanzas.len(),
{
    if stanzas.len() > 0 {
        lemma_lay_stanzas_contig(stanzas.drop_last(), block, measure, hyph, css, off);
        let r = lay_stanzas(stanzas.drop_last(), block, measure, hyph, css, off);
        lemma_lay_lines_contig(stanzas.last().lines@, block, measure, hyph, css, r.1);
        let r2 = lay_lines(stanzas.last().lines@, block, measure, hyph, css, r.1);
        lemma_contig_concat(r.0, r2.0, off, r.1, r2.1);
    }
}

/// The lines of a book tile its characters: the first line starts at 0,
/// each next one starts where the one before it ended, the last ends at
/// the book's character count, and blank lines cover no characters.
pub proof fn lemma_layout_contiguous(
    blocks: Seq<Block>,
    cfg: TypographyConfig,
    simplified: bool,
    css: bool,
    total: int,
)
    ensures
        contiguous(build_lines(blocks, cfg, simplified, css, total).0, 0, blocks_chars(blocks, css) as int),
    decreases blocks.len(),
{
    lemma_build_offset(blocks, cfg, simplified, css, total);
    if blocks.len() > 0 {
        lemma_layout_contiguous(blocks.drop_last(), cfg, simplified, css, total);
        lemma_build_offset(blocks.drop_last(), cfg, simplified, css, total);
        let r = build_lines(blocks.drop_last(), cfg, simplified, css, total);
        let i = blocks.len() - 1;
        let c = Lctx {
            block: i,
            measure: cfg.measure as int,
            indent: if simplified { 0 } else { cfg.paragraph_indent as int },
            simplified,
            hyphenation: cfg.hyphenation,
            justified: cfg.justified,
            css,
        };
        let b = lay_block(blocks.last(), c, r.1);
        lemma_lay_block_contig(blocks.last(), c, r.1);
        lemma_interleave_contig(b.0, cfg.line_spacing as int, r.1, b.1);
        let spacing = if simplified { 1 } else { cfg.paragraph_spacing as int };
        let gap = if spacing > 0 && i < total - 1 {
            blanks(spacing, i, b.1)
        } else {
            Seq::empty()
        };
        lemma_blanks_contig(spacing, i, b.1);
        assert(contiguous(gap, b.1, b.1));
        lemma_contig_concat(r.0, interleave(b.0, cfg.line_spacing as int), 0, r.1, b.1);
        lemma_contig_concat(r.0 + interleave(b.0, cfg.line_spacing as int), gap, 0, b.1, b.1);
    }
}

// ---------------------------------------------------------------------
// Which block each line belongs to

/// Every line belongs to block `k`.
pub open spec fn of_block(ls: Seq<LineV>, k: int) -> bool {
    forall|i: int| 0 <= i < ls.len() ==> (#[trigger] ls[i]).block_index == k
}

proof fn lemma_of_block_concat(a: Seq<LineV>, b: Seq<LineV>, k: int)
    requires
        of_block(a, k),
        of_block(b, k),
    ensures
        of_block(a + b, k),
{
    assert forall|i: int| 0 <= i < (a + b).len() implies (#[trigger] (a + b)[i]).block_index == k by {
        if i < a.len() {
            assert((a + b)[i] == a[i]);
        } else {
            assert((a + b)[i] == b[i - a.len()]);
        }
    }
}

proof fn lemma_of_block_push(a: Seq<LineV>, l: LineV, k: int)
    requires
        of_block(a, k),
        l.block_index == k,
    ensures
        of_block(a.push(l), k),
{
    assert(a.push(l) =~= a + seq![l]);
    lemma_of_block_concat(a, seq![l], k);
}

proof fn lemma_place_words_of_block(s: WrapState, st: SpanV, t: Seq<char>, pos: int, p: WrapParams)
    requires
        of_block(s.lines, p.block),
        0 <= pos <= t.len(),
    ensures
        of_block(place_words(s, st, t, pos, p).lines, p.block),
    decreases t.len() - pos,
{
    if pos < t.len() {
        let e = word_end(t, pos);
        lemma_word_end_bounds(t, pos);
        let w = t.subrange(pos, e);
        let ww = crate::renderer::layout::text_width(w) as int;
        if s.width + ww > p.max && s.cur.len() > 0 {
            let l = text_line(crate::renderer::layout::justify(s.cur, s.width, p), p.block, s.line_start, s.offset);
            lemma_of_block_push(s.lines, l, p.block);
        }
        let s1 = if s.width + ww > p.max && s.cur.len() > 0 {
            flush(s, p)
        } else {
            s
        };
        if p.hyphenation && ww > p.max && w.len() > 6 {
            let mid = w.len() / 2;
            let l = text_line(
                s1.cur.push(crate::renderer::layout::with_text(st, w.take(mid as int) + "-"@)),
                p.block,
                s1.line_start,
                s1.offset + mid,
            );
            lemma_of_block_push(s1.lines, l, p.block);
        }
        lemma_place_words_of_block(place_word(s, st, w, p), st, t, e, p);
    }
}

proof fn lemma_place_spans_of_block(s: WrapState, spans: Seq<SpanV>, p: WrapParams)
    requires
        of_block(s.lines, p.block),
    ensures
        of_block(place_spans(s, spans, p).lines, p.block),
    decreases spans.len(),
{
    if spans.len() > 0 {
        lemma_place_words_of_block(s, spans[0], spans[0].text, 0, p);
        lemma_place_spans_of_block(place_words(s, spans[0], spans[0].text, 0, p), spans.skip(1), p);
    }
}

proof fn lemma_wrap_of_block(spans: Seq<SpanV>, p: WrapParams, off: int)
    ensures
        of_block(wrap_spans(spans, p, off).0, p.block),
{
    let s0 = wrap_init(p, off);
    lemma_place_spans_of_block(s0, spans, p);
    let s = place_spans(s0, spans, p);
    if s.cur.len() > 0 {
        lemma_of_block_push(s.lines, text_line(s.cur, p.block, s.line_start, s.offset), p.block);
    }
}

proof fn lemma_interleave_of_block(ls: Seq<LineV>, sp: int, k: int)
    requires
        of_block(ls, k),
    ensures
        of_block(interleave(ls, sp), k),
{
    if !(sp <= 1 || ls.len() <= 1) {
        lemma_il_of_block(ls, ls.len() as int, sp, k);
    }
}

proof fn lemma_il_of_block(ls: Seq<LineV>, n: int, sp: int, k: int)
    requires
        of_block(ls, k),
    ensures
        of_block(il(ls, n, sp), k),
    decreases ls.len(),
{
    if ls.len() > 0 {
        let last = ls.last();
        let init = ls.drop_last();
        assert(of_block(init, k)) by {
            assert forall|i: int| 0 <= i < init.len() implies (#[trigger] init[i]).block_index == k by {
                assert(init[i] == ls[i]);
            }
        }
        lemma_il_of_block(init, n, sp, k);
        assert(last == ls[ls.len() - 1]);
        lemma_of_block_concat(il(init, n, sp), seq![last], k);
        let tail = if ls.len() < n {
            blanks(sp - 1, last.block_index, last.char_end)
        } else {
            Seq::empty()
        };
        assert(of_block(tail, k));
        lemma_of_block_concat(il(init, n, sp) + seq![last], tail, k);
    }
}

proof fn lemma_lay_block_of_block(b: Block, c: Lctx, off: int)
    ensures
        of_block(lay_block(b, c, off).0, c.block),
    decreases b, 1nat,
{
    match b {
        Block::Paragraph(inl) => {
            lemma_wrap_of_block(
                crate::renderer::layout::flat_inlines(inl@, false, 0, false, c.css),
                crate::renderer::layout::wp(c, c.indent, c.hyphenation, c.justified),
                off,
            );
        },
        Block::Heading { level, inlines } => {
            lemma_wrap_of_block(
                crate::renderer::layout::flat_inlines(inlines@, true, level, false, c.css),
                crate::renderer::layout::wp(c, 0, false, false),
                off,
            );
        },
        Block::Quote(bs) => {
            lemma_lay_blocks_of_block(bs@, crate::renderer::layout::inner_ctx(c), off);
        },
        Block::Epigraph(bs) => {
            lemma_lay_blocks_of_block(bs@, crate::renderer::layout::inner_ctx(c), off);
        },
        Block::Annotation(bs) => {
            lemma_lay_blocks_of_block(bs@, crate::renderer::layout::inner_ctx(c), off);
        },
        Block::Hidden(bs) => {
            if !c.css {
                lemma_lay_blocks_of_block(bs@, c, off);
            }
        },
        Block::List { ordered, items } => {
            lemma_lay_items_of_block(items@, ordered, c.block, c.measure, c.hyphenation, c.justified, c.css, off);
        },
        Block::Table { rows } => {
            lemma_lay_rows_of_block(rows@, c.block, off);
        },
        Block::Poem { stanzas } => {
            lemma_lay_stanzas_of_block(stanzas@, c.block, c.measure, c.hyphenation, c.css, off);
        },
        _ => {},
    }
}

proof fn lemma_lay_blocks_of_block(bs: Seq<Block>, c: Lctx, off: int)
    ensures
        of_block(lay_blocks(bs, c, off).0, c.block),
    decreases bs, 0nat,
{
    if bs.len() > 0 {
        lemma_lay_blocks_of_block(bs.drop_last(), c, off);
        let r = lay_blocks(bs.drop_last(), c, off);
        lemma_lay_block_of_block(bs.last(), c, r.1);
        lemma_of_block_concat(r.0, lay_block(bs.last(), c, r.1).0, c.block);
    }
}

proof fn lemma_lay_items_of_block(
    items: Seq<crate::formats::model::ListItem>,
    ordered: bool,
    block: int,
    measure: int,
    hyph: bool,
    just: bool,
    css: bool,
    off: int,
)
    ensures
        of_block(lay_items(items, ordered, block, measure, hyph, just, css, off).0, block),
    decreases items.len(),
{
    if items.len() > 0 {
        lemma_lay_items_of_block(items.drop_last(), ordered, block, measure, hyph, just, css, off);
        let r = lay_items(items.drop_last(), ordered, block, measure, hyph, just, css, off);
        let spans = crate::renderer::layout::item_spans(items, ordered, items.len() - 1, css);
        let p = WrapParams { max: measure, indent: 2, block, hyphenation: hyph, justified: just };
        lemma_wrap_of_block(spans, p, r.1);
        lemma_of_block_concat(r.0, wrap_spans(spans, p, r.1).0, block);
    }
}

proof fn lemma_lay_rows_of_block(rows: Seq<TableRow>, block: int, off: int)
    ensures
        of_block(lay_rows(rows, block, off).0, block),
    decreases rows.len(),
{
    if rows.len() > 0 {
        lemma_lay_rows_of_block(rows.drop_last(), block, off);
        let r = lay_rows(rows.drop_last(), block, off);
        let t = crate::formats::model::row_text(rows.last());
        lemma_of_block_push(r.0, crate::renderer::layout::row_line(t, block, r.1), block);
    }
}

proof fn lemma_lay_lines_of_block(
    lines: Seq<Vec<crate::formats::model::Inline>>,
    block: int,
    measure: int,
    hyph: bool,
    css: bool,
    off: int,
)
    ensures
        of_block(lay_lines(lines, block, measure, hyph, css, off).0, block),
    decreases lines.len(),
{
    if lines.len() > 0 {
        lemma_lay_lines_of_block(lines.drop_last(), block, measure, hyph, css, off);
        let r = lay_lines(lines.drop_last(), block, measure, hyph, css, off);
        let spans = crate::renderer::layout::flat_inlines(lines.last()@, false, 0, false, css);
        let p = WrapParams { max: measure, indent: 4, block, hyphenation: hyph, justified: false };
        lemma_wrap_of_block(spans, p, r.1);
        lemma_of_block_concat(r.0, wrap_spans(spans, p, r.1).0, block);
    }
}

proof fn lemma_lay_stanzas_of_block(stanzas: Seq<PoemStanza>, block: int, measure: int, hyph: bool, css: bool, off: int)
    ensures
        of_block(lay_stanzas(stanzas, block, measure, hyph, css, off).0, block),
    decreases stanzas.len(),
{
    if stanzas.len() > 0 {
        lemma_lay_stanzas_of_block(stanzas.drop_last(), block, measure, hyph, css, off);
        let r = lay_stanzas(stanzas.drop_last(), block, measure, hyph, css, off);
        lemma_lay_lines_of_block(stanzas.last().lines@, block, measure, hyph, css, r.1);
        lemma_of_block_concat(r.0, lay_lines(stanzas.last().lines@, block, measure, hyph, css, r.1).0, block);
    }
}

/// Where block `k` begins: the number of characters of the blocks before it.
#[verifier::opaque]
pub open spec fn block_start(blocks: Seq<Block>, k: int, css: bool) -> int {
    blocks_chars(blocks.take(k), css) as int
}

/// Every line names a block of the book.
pub open spec fn names_blocks(ls: Seq<LineV>, n: int) -> bool {
    forall|j: int| 0 <= j < ls.len() ==> 0 <= #[trigger] ls[j].block_index < n
}

/// Lines name their blocks in order.
pub open spec fn blocks_in_order(ls: Seq<LineV>) -> bool {
    forall|i: int, j: int| 0 <= i < j < ls.len() ==> #[trigger] ls[i].block_index <= #[trigger] ls[j].block_index
}

/// The first line of each block starts where the block begins.
pub open spec fn first_lines_at_starts(ls: Seq<LineV>, blocks: Seq<Block>, css: bool) -> bool {
    forall|j: int|
        0 <= j < ls.len() && (j == 0 || ls[j - 1].block_index < ls[j].block_index) ==> (#[trigger] ls[j]).char_start
            == block_start(blocks, ls[j].block_index, css)
}

/// Lines name their blocks in order, and the first line of each block
/// starts at the block's offset: the number of characters of the blocks
/// before it (which no typography setting changes).
pub open spec fn blocks_start_at_offsets(ls: Seq<LineV>, blocks: Seq<Block>, css: bool) -> bool {
    &&& names_blocks(ls, blocks.len() as int)
    &&& blocks_in_order(ls)
    &&& first_lines_at_starts(ls, blocks, css)
}

proof fn lemma_block_start_prefix(blocks: Seq<Block>, k: int, css: bool)
    requires
        blocks.len() > 0,
        0 <= k < blocks.len(),
    ensures
        block_start(blocks.drop_last(), k, css) == block_start(blocks, k, css),
{
    reveal(block_start);
    assert(blocks.drop_last().take(k) =~= blocks.take(k));
}

proof fn lemma_names_extend(r0: Seq<LineV>, mid: Seq<LineV>, n: int)
    requires
        names_blocks(r0, n - 1),
        of_block(mid, n - 1),
        n > 0,
    ensures
        names_blocks(r0 + mid, n),
{
    let ls = r0 + mid;
    assert forall|j: int| 0 <= j < ls.len() implies 0 <= #[trigger] ls[j].block_index < n by {
        if j < r0.len() {
            assert(ls[j] == r0[j]);
        } else {
            assert(ls[j] == mid[j - r0.len()]);
        }
    }
}

proof fn lemma_order_extend(r0: Seq<LineV>, mid: Seq<LineV>, n: int)
    requires
        names_blocks(r0, n - 1),
        blocks_in_order(r0),
        of_block(mid, n - 1),
    ensures
        blocks_in_order(r0 + mid),
{
    let ls = r0 + mid;
    assert forall|a: int, d: int| 0 <= a < d < ls.len() implies #[trigger] ls[a].block_index
        <= #[trigger] ls[d].block_index by {
        if d < r0.len() {
            assert(ls[a] == r0[a] && ls[d] == r0[d]);
        } else if a < r0.len() {
            assert(ls[a] == r0[a] && ls[d] == mid[d - r0.len()]);
        } else {
            assert(ls[a] == mid[a - r0.len()] && ls[d] == mid[d - r0.len()]);
        }
    }
}

proof fn lemma_firsts_extend(r0: Seq<LineV>, mid: Seq<LineV>, blocks: Seq<Block>, css: bool, r1: int)
    requires
        blocks.len() > 0,
        names_blocks(r0, blocks.len() - 1),
        first_lines_at_starts(r0, blocks.drop_last(), css),
        of_block(mid, blocks.len() - 1),
        mid.len() > 0 ==> mid[0].char_start == r1,
        r1 == block_start(blocks, blocks.len() - 1, css),
    ensures
        first_lines_at_starts(r0 + mid, blocks, css),
{
    let ls = r0 + mid;
    let i = blocks.len() - 1;
    assert forall|j: int|
        0 <= j < ls.len() && (j == 0 || ls[j - 1].block_index < ls[j].block_index) implies (#[trigger] ls[j]).char_start
        == block_start(blocks, ls[j].block_index, css) by {
        if j < r0.len() {
            assert(ls[j] == r0[j]);
            if j > 0 {
                assert(ls[j - 1] == r0[j - 1]);
            }
            lemma_block_start_prefix(blocks, r0[j].block_index, css);
        } else if j == r0.len() {
            assert(ls[j] == mid[0]);
            assert(mid[0].block_index == i);
        } else {
            assert(ls[j] == mid[j - r0.len()]);
            assert(ls[j - 1] == mid[j - 1 - r0.len()]);
        }
    }
}

/// The first line of each block starts at that block's offset, and the
/// lines name the blocks in order.
pub proof fn lemma_layout_block_starts(
    blocks: Seq<Block>,
    cfg: TypographyConfig,
    simplified: bool,
    css: bool,
    total: int,
)
    ensures
        blocks_start_at_offsets(build_lines(blocks, cfg, simplified, css, total).0, blocks, css),
    decreases blocks.len(),
{
    if blocks.len() > 0 {
        let n = blocks.len();
        let prev = blocks.drop_last();
        lemma_layout_block_starts(prev, cfg, simplified, css, total);
        lemma_layout_contiguous(prev, cfg, simplified, css, total);
        lemma_build_offset(prev, cfg, simplified, css, total);
        let r = build_lines(prev, cfg, simplified, css, total);
        let i = n - 1;
        let c = Lctx {
            block: i,
            measure: cfg.measure as int,
            indent: if simplified { 0 } else { cfg.paragraph_indent as int },
            simplified,
            hyphenation: cfg.hyphenation,
            justified: cfg.justified,
            css,
        };
        let b = lay_block(blocks.last(), c, r.1);
        lemma_lay_block_contig(blocks.last(), c, r.1);
        lemma_interleave_contig(b.0, cfg.line_spacing as int, r.1, b.1);
        lemma_lay_block_of_block(blocks.last(), c, r.1);
        lemma_interleave_of_block(b.0, cfg.line_spacing as int, i);
        let spacing = if simplified { 1 } else { cfg.paragraph_spacing as int };
        let gap = if spacing > 0 && i < total - 1 {
            blanks(spacing, i, b.1)
        } else {
            Seq::empty()
        };
        lemma_blanks_contig(spacing, i, b.1);
        assert(contiguous(gap, b.1, b.1));
        assert(of_block(gap, i));
        let mid = interleave(b.0, cfg.line_spacing as int) + gap;
        lemma_contig_concat(interleave(b.0, cfg.line_spacing as int), gap, r.1, b.1, b.1);
        lemma_of_block_concat(interleave(b.0, cfg.line_spacing as int), gap, i);
        assert(mid.len() > 0 ==> mid[0].char_start == r.1);
        assert(r.1 == block_start(blocks, i, css)) by {
            reveal(block_start);
            assert(prev =~= blocks.take(i));
        }
        lemma_names_extend(r.0, mid, n as int);
        lemma_order_extend(r.0, mid, n as int);
        lemma_firsts_extend(r.0, mid, blocks, css, r.1);
        assert(r.0 + mid == build_lines(blocks, cfg, simplified, css, total).0);
    }
}

// ---------------------------------------------------------------------
// Line widths

/// The summed display widths of the spans' texts.
pub open spec fn words_width(spans: Seq<SpanV>) -> int
    decreases spans.len(),
{
    if spans.len() == 0 {
        0
    } else {
        words_width(spans.drop_last()) + crate::renderer::layout::text_width(spans.last().text)
    }
}

/// The columns a line of a paragraph takes: the widths of its words, and
/// the indentation on the paragraph's first line when there is one.
pub open spec fn line_cols(l: LineV, first: bool, indent: int) -> int {
    if first && indent > 0 {
        indent + words_width(l.spans.skip(1))
    } else {
        words_width(l.spans)
    }
}

/// The number of words on a line of a paragraph (the indentation of the
/// first line is not a word).
pub open spec fn line_words(l: LineV, first: bool, indent: int) -> int {
    if first && indent > 0 {
        l.spans.len() - 1
    } else {
        l.spans.len() as int
    }
}

/// A line fits the measure, or holds at most one word.
pub open spec fn line_fits(l: LineV, first: bool, indent: int, max: int) -> bool {
    line_cols(l, first, indent) <= max || line_words(l, first, indent) <= 1
}

spec fn cur_cols(s: WrapState, p: WrapParams) -> int {
    if s.lines.len() == 0 && p.indent > 0 {
        p.indent + words_width(s.cur.skip(1))
    } else {
        words_width(s.cur)
    }
}

spec fn cur_words(s: WrapState, p: WrapParams) -> int {
    if s.lines.len() == 0 && p.indent > 0 {
        s.cur.len() - 1
    } else {
        s.cur.len() as int
    }
}

/// Line filling keeps count of the current line's columns, which fit or
/// belong to a single word, and every line made so far fits.
spec fn wrap_fits(s: WrapState, p: WrapParams) -> bool {
    &&& s.width == cur_cols(s, p)
    &&& (s.lines.len() == 0 && p.indent > 0 ==> s.cur.len() >= 1)
    &&& (cur_cols(s, p) <= p.max || cur_words(s, p) <= 1)
    &&& forall|k: int| 0 <= k < s.lines.len() ==> line_fits(#[trigger] s.lines[k], k == 0, p.indent, p.max)
}

proof fn lemma_words_width_nonneg(spans: Seq<SpanV>)
    ensures
        words_width(spans) >= 0,
    decreases spans.len(),
{
    if spans.len() > 0 {
        lemma_words_width_nonneg(spans.drop_last());
    }
}

proof fn lemma_words_width_push(spans: Seq<SpanV>, x: SpanV)
    ensures
        words_width(spans.push(x)) == words_width(spans) + crate::renderer::layout::text_width(x.text),
{
    assert(spans.push(x).drop_last() =~= spans);
}

proof fn lemma_fits_push(lines: Seq<LineV>, l: LineV, p: WrapParams)
    requires
        forall|k: int| 0 <= k < lines.len() ==> line_fits(#[trigger] lines[k], k == 0, p.indent, p.max),
        line_fits(l, lines.len() == 0, p.indent, p.max),
    ensures
        forall|k: int| 0 <= k < lines.push(l).len() ==> line_fits(
            #[trigger] lines.push(l)[k],
            k == 0,
            p.indent,
            p.max,
        ),
{
    assert forall|k: int| 0 <= k < lines.push(l).len() implies line_fits(
        #[trigger] lines.push(l)[k],
        k == 0,
        p.indent,
        p.max,
    ) by {
        if k < lines.len() {
            assert(lines.push(l)[k] == lines[k]);
        }
    }
}

proof fn lemma_place_word_fits(s: WrapState, st: SpanV, w: Seq<char>, p: WrapParams)
    requires
        wrap_fits(s, p),
        !p.justified,
        p.indent >= 0,
    ensures
        wrap_fits(place_word(s, st, w, p), p),
{
    let ww = crate::renderer::layout::text_width(w) as int;
    lemma_words_width_nonneg(s.cur);
    lemma_words_width_nonneg(s.cur.skip(1));
    let s1 = if s.width + ww > p.max && s.cur.len() > 0 {
        flush(s, p)
    } else {
        s
    };
    if s.width + ww > p.max && s.cur.len() > 0 {
        let l = text_line(crate::renderer::layout::justify(s.cur, s.width, p), p.block, s.line_start, s.offset);
        assert(l.spans == s.cur);
        lemma_fits_push(s.lines, l, p);
        assert(words_width(Seq::<SpanV>::empty()) == 0);
    }
    assert(wrap_fits(s1, p));
    if p.hyphenation && ww > p.max && w.len() > 6 {
        let mid = w.len() / 2;
        assert(s1.cur.len() == 0);
        let x = crate::renderer::layout::with_text(st, w.take(mid as int) + "-"@);
        let l = text_line(s1.cur.push(x), p.block, s1.line_start, s1.offset + mid);
        assert(l.spans.len() == 1);
        lemma_fits_push(s1.lines, l, p);
        let y = crate::renderer::layout::with_text(st, w.skip(mid as int));
        lemma_words_width_push(Seq::<SpanV>::empty(), y);
        assert(seq![y] =~= Seq::<SpanV>::empty().push(y));
    } else {
        let x = crate::renderer::layout::with_text(st, w);
        lemma_words_width_push(s1.cur, x);
        if s1.cur.len() > 0 {
            assert(s1.cur.push(x).skip(1) =~= s1.cur.skip(1).push(x));
            lemma_words_width_push(s1.cur.skip(1), x);
        }
    }
}

proof fn lemma_place_words_fits(s: WrapState, st: SpanV, t: Seq<char>, pos: int, p: WrapParams)
    requires
        wrap_fits(s, p),
        !p.justified,
        p.indent >= 0,
        0 <= pos <= t.len(),
    ensures
        wrap_fits(place_words(s, st, t, pos, p), p),
    decreases t.len() - pos,
{
    if pos < t.len() {
        let e = word_end(t, pos);
        lemma_word_end_bounds(t, pos);
        lemma_place_word_fits(s, st, t.subrange(pos, e), p);
        lemma_place_words_fits(place_word(s, st, t.subrange(pos, e), p), st, t, e, p);
    }
}

proof fn lemma_place_spans_fits(s: WrapState, spans: Seq<SpanV>, p: WrapParams)
    requires
        wrap_fits(s, p),
        !p.justified,
        p.indent >= 0,
    ensures
        wrap_fits(place_spans(s, spans, p), p),
    decreases spans.len(),
{
    if spans.len() > 0 {
        lemma_place_words_fits(s, spans[0], spans[0].text, 0, p);
        lemma_place_spans_fits(place_words(s, spans[0], spans[0].text, 0, p), spans.skip(1), p);
    }
}

/// Without justification every line of a paragraph keeps to the measure:
/// the widths of its words, with the indentation on the first line,
/// add up to at most `max`, unless the line holds a single word (one
/// wider than the measure, or a half of a hyphenated one).
pub proof fn lemma_wrap_lines_fit(spans: Seq<SpanV>, p: WrapParams, off: int)
    requires
        !p.justified,
        p.indent >= 0,
    ensures
        forall|k: int| 0 <= k < wrap_spans(spans, p, off).0.len() ==> line_fits(
            #[trigger] wrap_spans(spans, p, off).0[k],
            k == 0,
            p.indent,
            p.max,
        ),
{
    let s0 = wrap_init(p, off);
    if p.indent > 0 {
        assert(s0.cur.skip(1) =~= Seq::<SpanV>::empty());
    }
    assert(words_width(Seq::<SpanV>::empty()) == 0);
    assert(wrap_fits(s0, p));
    lemma_place_spans_fits(s0, spans, p);
    let s = place_spans(s0, spans, p);
    if s.cur.len() > 0 {
        lemma_fits_push(s.lines, text_line(s.cur, p.block, s.line_start, s.offset), p);
    }
}

// ---------------------------------------------------------------------
// Search offsets agree with layout offsets

/// Inline content with no image and no hidden part at any depth.
pub open spec fn text_only_inline(i: Inline) -> bool
    decreases i,
{
    match i {
        Inline::Image { .. } => false,
        Inline::Hidden(_) => false,
        Inline::Bold(c) => text_only_inlines(c@),
        Inline::Italic(c) => text_only_inlines(c@),
        Inline::Underline(c) => text_only_inlines(c@),
        Inline::Strike(c) => text_only_inlines(c@),
        Inline::Link { inlines, .. } => text_only_inlines(inlines@),
        _ => true,
    }
}

pub open spec fn text_only_inlines(s: Seq<Inline>) -> bool
    decreases s,
{
    s.len() == 0 || (text_only_inlines(s.drop_last()) && text_only_inline(s.last()))
}

/// A paragraph or heading of text-only content, or an empty block.
pub open spec fn text_only_block(b: Block) -> bool {
    match b {
        Block::Paragraph(i) => text_only_inlines(i@),
        Block::Heading { inlines, .. } => text_only_inlines(inlines@),
        Block::Empty => true,
        _ => false,
    }
}

proof fn lemma_spans_len_concat(a: Seq<SpanV>, b: Seq<SpanV>)
    ensures
        spans_len(a + b) == spans_len(a) + spans_len(b),
    decreases a.len(),
{
    if a.len() == 0 {
        assert(a + b =~= b);
    } else {
        lemma_spans_len_concat(a.skip(1), b);
        assert((a + b).skip(1) =~= a.skip(1) + b);
        assert((a + b)[0] == a[0]);
    }
}

proof fn lemma_styles_keep_len(s: Seq<SpanV>, target: Seq<char>)
    ensures
        spans_len(set_bold(s)) == spans_len(s),
        spans_len(set_italic(s)) == spans_len(s),
        spans_len(set_underline(s)) == spans_len(s),
        spans_len(set_strike(s)) == spans_len(s),
        spans_len(set_link(s, target)) == spans_len(s),
    decreases s.len(),
{
    if s.len() > 0 {
        lemma_styles_keep_len(s.skip(1), target);
        assert(set_bold(s).skip(1) =~= set_bold(s.skip(1)));
        assert(set_italic(s).skip(1) =~= set_italic(s.skip(1)));
        assert(set_underline(s).skip(1) =~= set_underline(s.skip(1)));
        assert(set_strike(s).skip(1) =~= set_strike(s.skip(1)));
        assert(set_link(s, target).skip(1) =~= set_link(s.skip(1), target));
    }
}

proof fn lemma_single_span_len(x: SpanV)
    ensures
        spans_len(seq![x]) == x.text.len(),
{
    assert(seq![x].skip(1) =~= Seq::<SpanV>::empty());
    assert(spans_len(Seq::<SpanV>::empty()) == 0);
    assert(seq![x][0] == x);
}

proof fn lemma_flat_inline_len(i: Inline, h: bool, lvl: u8, q: bool, css: bool)
    requires
        text_only_inline(i),
    ensures
        spans_len(flat_inline(i, h, lvl, q, css)) == inline_text(i).len(),
    decreases i,
{
    match i {
        Inline::Text(t) => { lemma_single_span_len(ctx_span(t@, h, lvl, q)); },
        Inline::Code(t) => { lemma_single_span_len(SpanV { code: true, ..ctx_span(t@, h, lvl, q) }); },
        Inline::LineBreak => { lemma_single_span_len(plain_span(seq!['\n'])); },
        Inline::Bold(c) => {
            lemma_flat_inlines_len(c@, h, lvl, q, css);
            lemma_styles_keep_len(flat_inlines(c@, h, lvl, q, css), Seq::empty());
        },
        Inline::Italic(c) => {
            lemma_flat_inlines_len(c@, h, lvl, q, css);
            lemma_styles_keep_len(flat_inlines(c@, h, lvl, q, css), Seq::empty());
        },
        Inline::Underline(c) => {
            lemma_flat_inlines_len(c@, h, lvl, q, css);
            lemma_styles_keep_len(flat_inlines(c@, h, lvl, q, css), Seq::empty());
        },
        Inline::Strike(c) => {
            lemma_flat_inlines_len(c@, h, lvl, q, css);
            lemma_styles_keep_len(flat_inlines(c@, h, lvl, q, css), Seq::empty());
        },
        Inline::Link { target, inlines } => {
            lemma_flat_inlines_len(inlines@, h, lvl, q, css);
            lemma_styles_keep_len(flat_inlines(inlines@, h, lvl, q, css), target@);
        },
        _ => {},
    }
}

proof fn lemma_flat_inlines_len(s: Seq<Inline>, h: bool, lvl: u8, q: bool, css: bool)
    requires
        text_only_inlines(s),
    ensures
        spans_len(flat_inlines(s, h, lvl, q, css)) == inlines_text(s).len(),
    decreases s,
{
    if s.len() > 0 {
        lemma_flat_inlines_len(s.drop_last(), h, lvl, q, css);
        lemma_flat_inline_len(s.last(), h, lvl, q, css);
        lemma_spans_len_concat(flat_inlines(s.drop_last(), h, lvl, q, css), flat_inline(s.last(), h, lvl, q, css));
    }
}

proof fn lemma_blocks_chars_are_text_lengths(bs: Seq<Block>, css: bool)
    requires
        forall|i: int| 0 <= i < bs.len() ==> text_only_block(#[trigger] bs[i]),
    ensures
        blocks_chars(bs, css) == texts_len(blocks_texts(bs)),
    decreases bs.len(),
{
    if bs.len() > 0 {
        let b = bs.last();
        assert(text_only_block(bs[bs.len() - 1]));
        assert forall|i: int| 0 <= i < bs.drop_last().len() implies text_only_block(#[trigger] bs.drop_last()[i]) by {
            assert(bs.drop_last()[i] == bs[i]);
        }
        lemma_blocks_chars_are_text_lengths(bs.drop_last(), css);
        match b {
            Block::Paragraph(inl) => { lemma_flat_inlines_len(inl@, false, 0, false, css); },
            Block::Heading { level, inlines } => { lemma_flat_inlines_len(inlines@, true, level, false, css); },
            _ => {},
        }
        let ts = blocks_texts(bs);
        assert(ts == blocks_texts(bs.drop_last()).push(block_text(b)));
        assert(ts.drop_last() =~= blocks_texts(bs.drop_last()));
        assert(ts.last() == block_text(b));
        assert(texts_len(ts) == texts_len(ts.drop_last()) + ts.last().len());
        assert(block_chars(b, css) == block_text(b).len());
    }
}

/// In a book of text-only paragraphs, headings and empty blocks, the
/// search index counts each block from the same character offset as the
/// layout: the offset at which the search index places block `i` is where
/// the block begins in the layout, so a match is shown in its block's
/// lines.
pub proof fn lemma_search_offsets_are_block_starts(idx: BookSearchIndex, blocks: Seq<Block>, css: bool)
    requires
        idx.wf(),
        string_views(idx.blocks_text@) == blocks_texts(blocks),
        forall|i: int| 0 <= i < blocks.len() ==> text_only_block(#[trigger] blocks[i]),
    ensures
        forall|i: int| 0 <= i < blocks.len() ==> #[trigger] idx.block_char_offsets@[i] == block_start(blocks, i, css),
{
    lemma_blocks_texts_len(blocks);
    assert forall|i: int| 0 <= i < blocks.len() implies #[trigger] idx.block_char_offsets@[i] == block_start(
        blocks,
        i,
        css,
    ) by {
        reveal(block_start);
        lemma_blocks_texts_take(blocks, i);
        assert forall|j: int| 0 <= j < blocks.take(i).len() implies text_only_block(#[trigger] blocks.take(i)[j]) by {
            assert(blocks.take(i)[j] == blocks[j]);
        }
        lemma_blocks_chars_are_text_lengths(blocks.take(i), css);
    }
}

} // verus!
