//! XHTML chapters of EPUB books turned into blocks, with the content that
//! inline CSS hides (`display: none`) kept apart.
use crate::config::keymap::str_eq;
use crate::formats::fb2::without_ws;
use crate::formats::model::{
    bview, bviews, cell_views, inlines_plain_text, item_views, itexts, iview, iviews, lemma_inlines_text_view,
    row_views, Block, BlockV, Inline, InlineV, ListItem, TableCell, TableCellV, TableRow,
};
use crate::formats::xml::{
    attr, attr_exec, children_of, is_element, lemma_xviews_index, lemma_xviews_len, lemma_xviews_take,
    local_name, opt_chars, xview, xviews, XmlNode, XmlNodeV,
};
use crate::text::{chars_of, contains_exec, contains_seq, is_whitespace, lowercase, lowercase_string, owned, push_char};
use vstd::prelude::*;

verus! {

/// The lowercased name of an element.
pub open spec fn lname(n: XmlNodeV) -> Seq<char> {
    lowercase(local_name(n))
}

/// An element whose inline style hides it: its `style` attribute,
/// lowercased and without whitespace, holds `display:none`.
pub open spec fn css_hidden(n: XmlNodeV) -> bool {
    match attr(n, "style"@) {
        Some(s) => contains_seq(without_ws(lowercase(s)), "display:none"@),
        None => false,
    }
}

fn without_ws_string(s: &str) -> (r: Vec<char>)
    ensures
        r@ == without_ws(s@),
{
    let cs = chars_of(s);
    let mut r: Vec<char> = Vec::new();
    let mut i: usize = 0;
    while i < cs.len()
        invariant
            i <= cs@.len(),
            r@ == without_ws(cs@.take(i as int)),
        decreases cs.len() - i,
    {
        assert(cs@.take(i + 1).drop_last() =~= cs@.take(i as int));
        assert(cs@.take(i + 1).last() == cs@[i as int]);
        if !is_whitespace(cs[i]) {
            r.push(cs[i]);
        }
        i = i + 1;
    }
    assert(cs@.take(cs@.len() as int) =~= cs@);
    r
}

fn css_hidden_exec(n: &XmlNode) -> (r: bool)
    ensures
        r == css_hidden(xview(*n)),
{
    match attr_exec(n, "style") {
        Some(s) => {
            let low = lowercase_string(s.as_str());
            let packed = without_ws_string(low.as_str());
            contains_exec(&packed, "display:none")
        },
        None => false,
    }
}

fn lname_exec(name: &String) -> (r: String)
    ensures
        r@ == lowercase(name@),
{
    lowercase_string(name.as_str())
}

// ---------------------------------------------------------------------
// Inline content

/// The inline elements that one XHTML node gives.
pub open spec fn html_inline(n: XmlNodeV) -> Seq<InlineV>
    decreases n, 1int,
{
    match n {
        XmlNodeV::Text(t) => if t.len() > 0 {
            seq![InlineV::Text(t)]
        } else {
            Seq::empty()
        },
        XmlNodeV::Element { name, children, .. } => {
            let l = lowercase(name);
            let base = if l == "b"@ || l == "strong"@ {
                seq![InlineV::Bold(html_inlines(children))]
            } else if l == "i"@ || l == "em"@ {
                seq![InlineV::Italic(html_inlines(children))]
            } else if l == "u"@ {
                seq![InlineV::Underline(html_inlines(children))]
            } else if l == "s"@ || l == "strike"@ || l == "del"@ {
                seq![InlineV::Strike(html_inlines(children))]
            } else if l == "code"@ {
                seq![InlineV::Code(itexts(html_inlines(children)))]
            } else if l == "a"@ {
                seq![
                    InlineV::Link {
                        target: match attr(n, "href"@) {
                            Some(h) => h,
                            None => Seq::empty(),
                        },
                        inlines: html_inlines(children),
                    },
                ]
            } else if l == "br"@ {
                seq![InlineV::LineBreak]
            } else if l == "img"@ {
                match attr(n, "src"@) {
                    Some(s) => seq![InlineV::Image { key: s, alt: attr(n, "alt"@) }],
                    None => Seq::empty(),
                }
            } else {
                html_inlines(children)
            };
            if css_hidden(n) {
                seq![InlineV::Hidden(base)]
            } else {
                base
            }
        },
        XmlNodeV::Other => Seq::empty(),
    }
}

/// The inline elements of a run of XHTML nodes.
pub open spec fn html_inlines(cs: Seq<XmlNodeV>) -> Seq<InlineV>
    decreases cs, 0int,
{
    if cs.len() == 0 {
        Seq::empty()
    } else {
        html_inlines(cs.drop_last()) + html_inline(cs.last())
    }
}

proof fn lemma_iviews_push(s: Seq<Inline>, x: Inline)
    ensures
        iviews(s.push(x)) == iviews(s).push(iview(x)),
{
    assert(s.push(x).drop_last() =~= s);
}

proof fn lemma_iviews_len(s: Seq<Inline>)
    ensures
        iviews(s).len() == s.len(),
    decreases s.len(),
{
    if s.len() > 0 {
        lemma_iviews_len(s.drop_last());
    }
}

fn push_inline(out: &mut Vec<Inline>, x: Inline)
    ensures
        iviews(final(out)@) == iviews(old(out)@).push(iview(x)),
{
    proof {
        lemma_iviews_push(old(out)@, x);
    }
    out.push(x);
}

pub fn html_inlines_of(cs: &Vec<XmlNode>) -> (r: Vec<Inline>)
    ensures
        iviews(r@) == html_inlines(xviews(cs@)),
    decreases cs, 2nat,
{
    let mut inner: Vec<Inline> = Vec::new();
    parse_html_inlines(cs, &mut inner);
    assert(iviews(inner@) =~= Seq::<InlineV>::empty() + html_inlines(xviews(cs@)));
    inner
}

fn html_inline_base(n: &XmlNode) -> (r: Vec<Inline>)
    requires
        is_element(xview(*n)),
    ensures
        n matches XmlNode::Element { name, children, .. } && iviews(r@) == (if css_hidden(xview(*n)) {
            html_inline(xview(*n))[0]->Hidden_0
        } else {
            html_inline(xview(*n))
        }),
    decreases n, 3nat,
{
    let mut out: Vec<Inline> = Vec::new();
    match n {
        XmlNode::Element { name, children, .. } => {
            let l = lname_exec(name);
            let s = l.as_str();
            if str_eq(s, "b") || str_eq(s, "strong") {
                push_inline(&mut out, Inline::Bold(html_inlines_of(children)));
            } else if str_eq(s, "i") || str_eq(s, "em") {
                push_inline(&mut out, Inline::Italic(html_inlines_of(children)));
            } else if str_eq(s, "u") {
                push_inline(&mut out, Inline::Underline(html_inlines_of(children)));
            } else if str_eq(s, "s") || str_eq(s, "strike") || str_eq(s, "del") {
                push_inline(&mut out, Inline::Strike(html_inlines_of(children)));
            } else if str_eq(s, "code") {
                let inner = html_inlines_of(children);
                let txt = inlines_plain_text(&inner);
                proof {
                    lemma_inlines_text_view(inner@);
                }
                push_inline(&mut out, Inline::Code(txt));
            } else if str_eq(s, "a") {
                let target = match attr_exec(n, "href") {
                    Some(h) => h,
                    None => String::new(),
                };
                push_inline(&mut out, Inline::Link { target, inlines: html_inlines_of(children) });
            } else if str_eq(s, "br") {
                push_inline(&mut out, Inline::LineBreak);
            } else if str_eq(s, "img") {
                match attr_exec(n, "src") {
                    Some(src) => {
                        let alt = attr_exec(n, "alt");
                        push_inline(&mut out, Inline::Image { key: src, alt });
                    },
                    None => {},
                }
            } else {
                parse_html_inlines(children, &mut out);
            }
            assert(iviews(out@) =~= Seq::<InlineV>::empty() + iviews(out@));
        },
        _ => {},
    }
    out
}

fn parse_html_inline(n: &XmlNode, out: &mut Vec<Inline>)
    ensures
        iviews(final(out)@) == iviews(old(out)@) + html_inline(xview(*n)),
    decreases n, 4nat,
{
    let ghost before = iviews(out@);
    match n {
        XmlNode::Text(t) => {
            if t.unicode_len() > 0 {
                push_inline(out, Inline::Text(owned(t.as_str())));
            }
            assert(iviews(out@) =~= before + html_inline(xview(*n)));
        },
        XmlNode::Element { .. } => {
            let base = html_inline_base(n);
            if css_hidden_exec(n) {
                push_inline(out, Inline::Hidden(base));
            } else {
                let mut base = base;
                proof {
                    crate::formats::model::lemma_iviews_concat(out@, base@);
                }
                out.append(&mut base);
            }
            assert(iviews(out@) =~= before + html_inline(xview(*n)));
        },
        XmlNode::Other => {
            assert(iviews(out@) =~= before + Seq::<InlineV>::empty());
        },
    }
}

fn parse_html_inlines(cs: &Vec<XmlNode>, out: &mut Vec<Inline>)
    ensures
        iviews(final(out)@) == iviews(old(out)@) + html_inlines(xviews(cs@)),
    decreases cs, 1nat,
{
    let ghost start = iviews(out@);
    let mut i: usize = 0;
    proof {
        lemma_xviews_len(cs@);
        assert(xviews(cs@.take(0)) =~= Seq::<XmlNodeV>::empty());
    }
    assert(iviews(out@) =~= start + html_inlines(xviews(cs@.take(0))));
    while i < cs.len()
        invariant
            i <= cs@.len(),
            iviews(out@) == start + html_inlines(xviews(cs@.take(i as int))),
        decreases cs.len() - i,
    {
        proof {
            lemma_xviews_take(cs@, i as int);
            let xs = xviews(cs@.take(i as int));
            let x = xview(cs@[i as int]);
            assert(xs.push(x).drop_last() =~= xs);
            assert(xs.push(x).last() == x);
        }
        parse_html_inline(&cs[i], out);
        assert(iviews(out@) =~= start + html_inlines(xviews(cs@.take(i + 1))));
        i = i + 1;
    }
    assert(cs@.take(cs@.len() as int) =~= cs@);
}


// ---------------------------------------------------------------------
// Blocks

/// A node and all the nodes under it, in document order.
pub open spec fn desc_list(n: XmlNodeV) -> Seq<XmlNodeV>
    decreases n, 1int,
{
    match n {
        XmlNodeV::Element { children, .. } => seq![n] + desc_seq(children),
        _ => seq![n],
    }
}

pub open spec fn desc_seq(cs: Seq<XmlNodeV>) -> Seq<XmlNodeV>
    decreases cs, 0int,
{
    if cs.len() == 0 {
        Seq::empty()
    } else {
        desc_seq(cs.drop_last()) + desc_list(cs.last())
    }
}

/// The cells (`td` and `th` elements) of a table row.
pub open spec fn html_cells(cs: Seq<XmlNodeV>) -> Seq<TableCellV>
    decreases cs.len(),
{
    if cs.len() == 0 {
        Seq::empty()
    } else {
        let c = cs.last();
        if is_element(c) && (lname(c) == "td"@ || lname(c) == "th"@) {
            html_cells(cs.drop_last()).push(
                TableCellV { is_header: lname(c) == "th"@, inlines: html_inlines(children_of(c)) },
            )
        } else {
            html_cells(cs.drop_last())
        }
    }
}

/// The rows of the `tr` elements among `ds`.
pub open spec fn html_rows(ds: Seq<XmlNodeV>) -> Seq<Seq<TableCellV>>
    decreases ds.len(),
{
    if ds.len() == 0 {
        Seq::empty()
    } else {
        let d = ds.last();
        if is_element(d) && lname(d) == "tr"@ {
            html_rows(ds.drop_last()).push(html_cells(children_of(d)))
        } else {
            html_rows(ds.drop_last())
        }
    }
}

/// The items (`li` elements) of a list.
pub open spec fn html_items(cs: Seq<XmlNodeV>) -> Seq<Seq<InlineV>>
    decreases cs.len(),
{
    if cs.len() == 0 {
        Seq::empty()
    } else {
        let c = cs.last();
        if is_element(c) && lname(c) == "li"@ {
            html_items(cs.drop_last()).push(html_inlines(children_of(c)))
        } else {
            html_items(cs.drop_last())
        }
    }
}

/// The level of a heading element's (lowercased) name, `h1` to `h6`.
pub open spec fn heading_level(l: Seq<char>) -> Option<u8> {
    if l.len() == 2 && l[0] == 'h' && '1' <= l[1] <= '6' {
        Some(((l[1] as int) - 48) as u8)
    } else {
        None
    }
}

/// The blocks that one XHTML node gives; an element that CSS hides gives
/// its blocks inside one `Hidden` block.
pub open spec fn html_elem_blocks(n: XmlNodeV) -> Seq<BlockV>
    decreases n, 1int,
{
    match n {
        XmlNodeV::Element { name, children, .. } => {
            let l = lowercase(name);
            let base = if heading_level(l) is Some {
                seq![BlockV::Heading { level: heading_level(l)->0, inlines: html_inlines(children) }]
            } else if l == "p"@ || l == "div"@ {
                if html_inlines(children).len() > 0 {
                    seq![BlockV::Paragraph(html_inlines(children))]
                } else {
                    Seq::empty()
                }
            } else if l == "blockquote"@ {
                seq![BlockV::Quote(html_blocks(children))]
            } else if l == "ul"@ || l == "ol"@ {
                seq![BlockV::List { ordered: l == "ol"@, items: html_items(children) }]
            } else if l == "table"@ {
                seq![BlockV::Table { rows: html_rows(desc_list(n)) }]
            } else if l == "img"@ {
                match attr(n, "src"@) {
                    Some(s) => seq![BlockV::Image { key: s, alt: attr(n, "alt"@) }],
                    None => Seq::empty(),
                }
            } else {
                html_blocks(children)
            };
            if css_hidden(n) {
                if base.len() > 0 {
                    seq![BlockV::Hidden(base)]
                } else {
                    Seq::empty()
                }
            } else {
                base
            }
        },
        _ => Seq::empty(),
    }
}

/// The blocks of a run of XHTML nodes.
pub open spec fn html_blocks(cs: Seq<XmlNodeV>) -> Seq<BlockV>
    decreases cs, 0int,
{
    if cs.len() == 0 {
        Seq::empty()
    } else {
        html_blocks(cs.drop_last()) + html_elem_blocks(cs.last())
    }
}

proof fn lemma_html_rows_concat(a: Seq<XmlNodeV>, b: Seq<XmlNodeV>)
    ensures
        html_rows(a + b) == html_rows(a) + html_rows(b),
    decreases b.len(),
{
    if b.len() == 0 {
        assert(a + b =~= a);
        assert(html_rows(a) + html_rows(b) =~= html_rows(a));
    } else {
        lemma_html_rows_concat(a, b.drop_last());
        assert((a + b).drop_last() =~= a + b.drop_last());
        assert((a + b).last() == b.last());
        let r = html_rows(a) + html_rows(b.drop_last());
        if is_element(b.last()) && lname(b.last()) == "tr"@ {
            assert(html_rows(a) + html_rows(b) =~= r.push(html_cells(children_of(b.last()))));
        } else {
            assert(html_rows(a) + html_rows(b) =~= r);
        }
    }
}

proof fn lemma_bviews_push(s: Seq<Block>, x: Block)
    ensures
        bviews(s.push(x)) == bviews(s).push(bview(x)),
{
    assert(s.push(x).drop_last() =~= s);
}

fn push_block(out: &mut Vec<Block>, b: Block)
    ensures
        bviews(final(out)@) == bviews(old(out)@).push(bview(b)),
{
    proof {
        lemma_bviews_push(old(out)@, b);
    }
    out.push(b);
}

fn cells_of(cs: &Vec<XmlNode>) -> (r: Vec<TableCell>)
    ensures
        cell_views(r@) == html_cells(xviews(cs@)),
{
    let mut r: Vec<TableCell> = Vec::new();
    let mut i: usize = 0;
    proof { lemma_xviews_len(cs@); }
    while i < cs.len()
        invariant
            i <= cs@.len(),
            cell_views(r@) == html_cells(xviews(cs@.take(i as int))),
        decreases cs.len() - i,
    {
        proof {
            lemma_xviews_take(cs@, i as int);
            let xs = xviews(cs@.take(i as int));
            let x = xview(cs@[i as int]);
            assert(xs.push(x).drop_last() =~= xs);
            assert(xs.push(x).last() == x);
        }
        match &cs[i] {
            XmlNode::Element { name, children, .. } => {
                let l = lname_exec(name);
                if str_eq(l.as_str(), "td") || str_eq(l.as_str(), "th") {
                    let is_header = str_eq(l.as_str(), "th");
                    let inlines = html_inlines_of(children);
                    let ghost prev = r@;
                    r.push(TableCell { is_header, inlines });
                    assert(r@.drop_last() =~= prev);
                }
            },
            _ => {},
        }
        i = i + 1;
    }
    assert(cs@.take(cs@.len() as int) =~= cs@);
    r
}

fn items_of(cs: &Vec<XmlNode>) -> (r: Vec<ListItem>)
    ensures
        item_views(r@) == html_items(xviews(cs@)),
{
    let mut r: Vec<ListItem> = Vec::new();
    let mut i: usize = 0;
    proof { lemma_xviews_len(cs@); }
    while i < cs.len()
        invariant
            i <= cs@.len(),
            item_views(r@) == html_items(xviews(cs@.take(i as int))),
        decreases cs.len() - i,
    {
        proof {
            lemma_xviews_take(cs@, i as int);
            let xs = xviews(cs@.take(i as int));
            let x = xview(cs@[i as int]);
            assert(xs.push(x).drop_last() =~= xs);
            assert(xs.push(x).last() == x);
        }
        match &cs[i] {
            XmlNode::Element { name, children, .. } => {
                let l = lname_exec(name);
                if str_eq(l.as_str(), "li") {
                    let inlines = html_inlines_of(children);
                    let ghost prev = r@;
                    r.push(ListItem { inlines });
                    assert(r@.drop_last() =~= prev);
                }
            },
            _ => {},
        }
        i = i + 1;
    }
    assert(cs@.take(cs@.len() as int) =~= cs@);
    r
}

fn push_row(rows: &mut Vec<TableRow>, row: TableRow)
    ensures
        row_views(final(rows)@) == row_views(old(rows)@).push(cell_views(row.cells@)),
{
    let ghost prev = rows@;
    rows.push(row);
    assert(rows@.drop_last() =~= prev);
}

/// The rows of the `tr` elements at and under `n`, in document order.
fn collect_rows(n: &XmlNode, rows: &mut Vec<TableRow>)
    ensures
        row_views(final(rows)@) == row_views(old(rows)@) + html_rows(desc_list(xview(*n))),
    decreases n, 1nat,
{
    let ghost r0 = row_views(rows@);
    match n {
        XmlNode::Element { name, children, .. } => {
            let l = lname_exec(name);
            let ghost xn = xview(*n);
            proof {
                lemma_html_rows_concat(seq![xn], desc_seq(xviews(children@)));
                assert(seq![xn].drop_last() =~= Seq::<XmlNodeV>::empty());
                assert(seq![xn].last() == xn);
                assert(html_rows(Seq::<XmlNodeV>::empty()) =~= Seq::<Seq<TableCellV>>::empty());
                assert(lname(xn) == l@);
                assert(children_of(xn) == xviews(children@));
            }
            if str_eq(l.as_str(), "tr") {
                let cells = cells_of(children);
                push_row(rows, TableRow { cells });
            }
            assert(row_views(rows@) =~= r0 + html_rows(seq![xn]));
            collect_rows_seq(children, rows);
            assert(row_views(rows@) =~= r0 + html_rows(desc_list(xn)));
        },
        _ => {
            let ghost xn = xview(*n);
            assert(seq![xn].drop_last() =~= Seq::<XmlNodeV>::empty());
            assert(seq![xn].last() == xn);
            assert(html_rows(Seq::<XmlNodeV>::empty()) =~= Seq::<Seq<TableCellV>>::empty());
            assert(html_rows(desc_list(xn)) =~= Seq::<Seq<TableCellV>>::empty());
            assert(row_views(rows@) =~= r0 + html_rows(desc_list(xn)));
        },
    }
}

fn collect_rows_seq(cs: &Vec<XmlNode>, rows: &mut Vec<TableRow>)
    ensures
        row_views(final(rows)@) == row_views(old(rows)@) + html_rows(desc_seq(xviews(cs@))),
    decreases cs, 0nat,
{
    let ghost r0 = row_views(rows@);
    let mut i: usize = 0;
    proof {
        lemma_xviews_len(cs@);
        assert(xviews(cs@.take(0)) =~= Seq::<XmlNodeV>::empty());
        assert(r0 + html_rows(Seq::<XmlNodeV>::empty()) =~= r0);
    }
    while i < cs.len()
        invariant
            i <= cs@.len(),
            row_views(rows@) == r0 + html_rows(desc_seq(xviews(cs@.take(i as int)))),
        decreases cs.len() - i,
    {
        proof {
            lemma_xviews_take(cs@, i as int);
            let xs = xviews(cs@.take(i as int));
            let x = xview(cs@[i as int]);
            assert(xs.push(x).drop_last() =~= xs);
            assert(xs.push(x).last() == x);
            lemma_html_rows_concat(desc_seq(xs), desc_list(x));
        }
        collect_rows(&cs[i], rows);
        i = i + 1;
    }
    assert(cs@.take(cs@.len() as int) =~= cs@);
}

fn heading_level_exec(l: &String) -> (r: Option<u8>)
    ensures
        r == heading_level(l@),
{
    let cs = chars_of(l.as_str());
    if cs.len() == 2 && cs[0] == 'h' && '1' <= cs[1] && cs[1] <= '6' {
        let d = (cs[1] as u32 - 48) as u8;
        Some(d)
    } else {
        None
    }
}

/// Appends the blocks of one XHTML node (see `html_elem_blocks`).
fn html_element_blocks(n: &XmlNode, out: &mut Vec<Block>)
    ensures
        bviews(final(out)@) == bviews(old(out)@) + html_elem_blocks(xview(*n)),
    decreases n, 1nat,
{
    let ghost before = bviews(out@);
    match n {
        XmlNode::Element { name, children, .. } => {
            let l = lname_exec(name);
            let s = l.as_str();
            let mut base: Vec<Block> = Vec::new();
            match heading_level_exec(&l) {
                Some(level) => {
                    push_block(&mut base, Block::Heading { level, inlines: html_inlines_of(children) });
                },
                None => {
                    if str_eq(s, "p") || str_eq(s, "div") {
                        let inl = html_inlines_of(children);
                        proof { lemma_iviews_len(inl@); }
                        if inl.len() > 0 {
                            push_block(&mut base, Block::Paragraph(inl));
                        }
                    } else if str_eq(s, "blockquote") {
                        let mut inner: Vec<Block> = Vec::new();
                        html_blocks_into(children, &mut inner);
                        assert(bviews(inner@) =~= Seq::<BlockV>::empty() + html_blocks(xviews(children@)));
                        push_block(&mut base, Block::Quote(inner));
                    } else if str_eq(s, "ul") || str_eq(s, "ol") {
                        let ordered = str_eq(s, "ol");
                        push_block(&mut base, Block::List { ordered, items: items_of(children) });
                    } else if str_eq(s, "table") {
                        let mut rows: Vec<TableRow> = Vec::new();
                        collect_rows(n, &mut rows);
                        assert(row_views(rows@) =~= Seq::<Seq<TableCellV>>::empty() + html_rows(desc_list(xview(*n))));
                        push_block(&mut base, Block::Table { rows });
                    } else if str_eq(s, "img") {
                        match attr_exec(n, "src") {
                            Some(src) => {
                                let alt = attr_exec(n, "alt");
                                push_block(&mut base, Block::Image { key: src, alt });
                            },
                            None => {},
                        }
                    } else {
                        html_blocks_into(children, &mut base);
                    }
                },
            }
            assert(bviews(base@) =~= Seq::<BlockV>::empty() + bviews(base@));
            proof {
                lemma_bviews_len(base@);
            }
            if css_hidden_exec(n) {
                if base.len() > 0 {
                    push_block(out, Block::Hidden(base));
                }
            } else {
                proof {
                    crate::formats::model::lemma_bviews_concat(out@, base@);
                }
                out.append(&mut base);
            }
            assert(bviews(out@) =~= before + html_elem_blocks(xview(*n)));
        },
        _ => {
            assert(bviews(out@) =~= before + Seq::<BlockV>::empty());
        },
    }
}

proof fn lemma_bviews_len(s: Seq<Block>)
    ensures
        bviews(s).len() == s.len(),
    decreases s.len(),
{
    if s.len() > 0 {
        lemma_bviews_len(s.drop_last());
    }
}

/// Appends the blocks of a run of XHTML nodes (see `html_blocks`).
pub fn html_blocks_into(cs: &Vec<XmlNode>, out: &mut Vec<Block>)
    ensures
        bviews(final(out)@) == bviews(old(out)@) + html_blocks(xviews(cs@)),
    decreases cs, 0nat,
{
    let ghost start = bviews(out@);
    let mut i: usize = 0;
    proof {
        lemma_xviews_len(cs@);
        assert(xviews(cs@.take(0)) =~= Seq::<XmlNodeV>::empty());
    }
    assert(bviews(out@) =~= start + html_blocks(xviews(cs@.take(0))));
    while i < cs.len()
        invariant
            i <= cs@.len(),
            bviews(out@) == start + html_blocks(xviews(cs@.take(i as int))),
        decreases cs.len() - i,
    {
        proof {
            lemma_xviews_take(cs@, i as int);
            let xs = xviews(cs@.take(i as int));
            let x = xview(cs@[i as int]);
            assert(xs.push(x).drop_last() =~= xs);
            assert(xs.push(x).last() == x);
        }
        html_element_blocks(&cs[i], out);
        assert(bviews(out@) =~= start + html_blocks(xviews(cs@.take(i + 1))));
        i = i + 1;
    }
    assert(cs@.take(cs@.len() as int) =~= cs@);
}

} // verus!
