//! Layout engine: turns the block tree of a book into wrapped, styled
//! terminal lines that carry the character offsets they cover.
use crate::config::TypographyConfig;
use crate::formats::model::{
    image_label, make_image_label, opt_view, row_plain_text, row_text, Block, Book, Inline, ListItem,
    PoemStanza, TableRow,
};
use crate::renderer::order::{
    blocks_start_at_offsets, contiguous, in_reading_order, lemma_layout_block_starts, lemma_layout_contiguous,
    lemma_layout_in_reading_order,
};
use crate::text::{chars_of, owned, push_char, string_of_range};
use unicode_width::{UnicodeWidthChar, UnicodeWidthStr};
use vstd::prelude::*;

verus! {

/// Display width in terminal columns of a string, as `unicode-width`
/// computes it.
pub uninterp spec fn text_width(s: Seq<char>) -> nat;

/// Display width of one character as `unicode-width` computes it (`None`
/// for control characters).
pub uninterp spec fn char_width(c: char) -> Option<usize>;

/// `UnicodeWidthStr::width`: the displayed width of `s`; the contract
/// names the result and claims nothing else of it.
#[verifier::external_body]
fn str_width(s: &str) -> (w: usize)
    ensures
        w == text_width(s@),
{
    UnicodeWidthStr::width(s)
}

/// `UnicodeWidthChar::width`: the displayed width of `c`; the contract
/// names the result and claims nothing else of it.
#[verifier::external_body]
fn char_display_width(c: char) -> (w: Option<usize>)
    ensures
        w == char_width(c),
{
    UnicodeWidthChar::width(c)
}

/// A character that occupies two or more columns (CJK ideographs and the
/// like); the wrapper may break a line before and after such a character.
pub open spec fn is_wide(c: char) -> bool {
    match char_width(c) {
        Some(w) => w >= 2,
        None => false,
    }
}

fn is_wide_char(c: char) -> (r: bool)
    ensures
        r == is_wide(c),
{
    match char_display_width(c) {
        Some(w) => w >= 2,
        None => false,
    }
}

#[derive(Debug, PartialEq)]
pub struct StyledSpan {
    pub text: String,
    pub bold: bool,
    pub italic: bool,
    pub underline: bool,
    pub strike: bool,
    pub code: bool,
    pub is_heading: bool,
    pub heading_level: u8,
    pub is_quote: bool,
    pub link_target: Option<String>,
}

/// Mathematical value of a styled span.
pub struct SpanV {
    pub text: Seq<char>,
    pub bold: bool,
    pub italic: bool,
    pub underline: bool,
    pub strike: bool,
    pub code: bool,
    pub is_heading: bool,
    pub heading_level: u8,
    pub is_quote: bool,
    pub link_target: Option<Seq<char>>,
}

impl View for StyledSpan {
    type V = SpanV;

    open spec fn view(&self) -> SpanV {
        SpanV {
            text: self.text@,
            bold: self.bold,
            italic: self.italic,
            underline: self.underline,
            strike: self.strike,
            code: self.code,
            is_heading: self.is_heading,
            heading_level: self.heading_level,
            is_quote: self.is_quote,
            link_target: opt_view(self.link_target),
        }
    }
}

/// An unstyled span holding `text`.
pub open spec fn plain_span(text: Seq<char>) -> SpanV {
    SpanV {
        text,
        bold: false,
        italic: false,
        underline: false,
        strike: false,
        code: false,
        is_heading: false,
        heading_level: 0,
        is_quote: false,
        link_target: None,
    }
}

/// `sp` with its text replaced by `text`.
pub open spec fn with_text(sp: SpanV, text: Seq<char>) -> SpanV {
    SpanV { text, ..sp }
}

impl Default for StyledSpan {
    fn default() -> (r: Self)
        ensures
            r@ == plain_span(Seq::empty()),
    {
        StyledSpan {
            text: String::new(),
            bold: false,
            italic: false,
            underline: false,
            strike: false,
            code: false,
            is_heading: false,
            heading_level: 0,
            is_quote: false,
            link_target: None,
        }
    }
}

pub fn copy_opt_string(o: &Option<String>) -> (r: Option<String>)
    ensures
        opt_view(r) == opt_view(*o),
{
    match o {
        Some(s) => Some(owned(s.as_str())),
        None => None,
    }
}

impl StyledSpan {
    /// A span with the style of `self` and the given text.
    pub fn with_text(&self, text: String) -> (r: StyledSpan)
        ensures
            r@ == with_text(self@, text@),
    {
        StyledSpan {
            text,
            bold: self.bold,
            italic: self.italic,
            underline: self.underline,
            strike: self.strike,
            code: self.code,
            is_heading: self.is_heading,
            heading_level: self.heading_level,
            is_quote: self.is_quote,
            link_target: copy_opt_string(&self.link_target),
        }
    }
}

#[derive(Debug, PartialEq)]
pub struct WrappedLine {
    pub spans: Vec<StyledSpan>,
    pub block_index: usize,
    pub char_start: usize,
    pub char_end: usize,
    pub is_empty_line: bool,
    /// Resource key of the image that a standalone image line stands for.
    pub image_key: Option<String>,
}

/// Mathematical value of a wrapped line.
pub struct LineV {
    pub spans: Seq<SpanV>,
    pub block_index: int,
    pub char_start: int,
    pub char_end: int,
    pub is_empty_line: bool,
    pub image_key: Option<Seq<char>>,
}

pub open spec fn sviews(v: Seq<StyledSpan>) -> Seq<SpanV> {
    v.map_values(|s: StyledSpan| s@)
}

impl View for WrappedLine {
    type V = LineV;

    open spec fn view(&self) -> LineV {
        LineV {
            spans: sviews(self.spans@),
            block_index: self.block_index as int,
            char_start: self.char_start as int,
            char_end: self.char_end as int,
            is_empty_line: self.is_empty_line,
            image_key: opt_view(self.image_key),
        }
    }
}

pub open spec fn lviews(v: Seq<WrappedLine>) -> Seq<LineV> {
    v.map_values(|l: WrappedLine| l@)
}

/// A blank line standing at character offset `at` of block `block`.
pub open spec fn blank_line(block: int, at: int) -> LineV {
    LineV {
        spans: Seq::empty(),
        block_index: block,
        char_start: at,
        char_end: at,
        is_empty_line: true,
        image_key: None,
    }
}

/// A text line of block `block` covering characters `start..end`.
pub open spec fn text_line(spans: Seq<SpanV>, block: int, start: int, end: int) -> LineV {
    LineV {
        spans,
        block_index: block,
        char_start: start,
        char_end: end,
        is_empty_line: false,
        image_key: None,
    }
}

pub open spec fn spaces(n: nat) -> Seq<char> {
    Seq::new(n, |i: int| ' ')
}

fn make_spaces(n: usize) -> (r: String)
    ensures
        r@ == spaces(n as nat),
{
    let mut r = String::new();
    let mut i: usize = 0;
    while i < n
        invariant
            i <= n,
            r@ == spaces(i as nat),
        decreases n - i,
    {
        push_char(&mut r, ' ');
        assert(r@ =~= spaces((i + 1) as nat));
        i = i + 1;
    }
    r
}

proof fn lemma_sviews_push(v: Seq<StyledSpan>, x: StyledSpan)
    ensures
        sviews(v.push(x)) == sviews(v).push(x@),
{
    assert(sviews(v.push(x)) =~= sviews(v).push(x@));
}

proof fn lemma_lviews_push(v: Seq<WrappedLine>, x: WrappedLine)
    ensures
        lviews(v.push(x)) == lviews(v).push(x@),
{
    assert(lviews(v.push(x)) =~= lviews(v).push(x@));
}

// ---------------------------------------------------------------------
// Word splitting

/// A word ends after a space, and around every wide character.
pub open spec fn breaks_after(t: Seq<char>, i: int) -> bool {
    t[i] == ' ' || is_wide(t[i]) || (i + 1 < t.len() && is_wide(t[i + 1]))
}

/// End (exclusive) of the word that contains position `i`.
pub open spec fn word_end(t: Seq<char>, i: int) -> int
    decreases t.len() - i,
{
    if i + 1 >= t.len() || breaks_after(t, i) {
        i + 1
    } else {
        word_end(t, i + 1)
    }
}

pub proof fn lemma_word_end_bounds(t: Seq<char>, i: int)
    requires
        0 <= i < t.len(),
    ensures
        i < word_end(t, i) <= t.len(),
    decreases t.len() - i,
{
    if !(i + 1 >= t.len() || breaks_after(t, i)) {
        lemma_word_end_bounds(t, i + 1);
    }
}

fn find_word_end(cs: &Vec<char>, start: usize) -> (e: usize)
    requires
        start < cs.len(),
    ensures
        e == word_end(cs@, start as int),
        start < e <= cs.len(),
{
    let mut j = start;
    proof { lemma_word_end_bounds(cs@, start as int); }
    loop
        invariant
            start <= j < cs.len(),
            word_end(cs@, j as int) == word_end(cs@, start as int),
        decreases cs.len() - j,
    {
        let brk = cs[j] == ' ' || is_wide_char(cs[j]) || (j + 1 < cs.len() && is_wide_char(cs[j + 1]));
        if j + 1 >= cs.len() || brk {
            return j + 1;
        }
        j = j + 1;
    }
}

// ---------------------------------------------------------------------
// Greedy line filling

pub struct WrapParams {
    pub max: int,
    pub indent: int,
    pub block: int,
    pub hyphenation: bool,
    pub justified: bool,
}

pub struct WrapState {
    pub lines: Seq<LineV>,
    pub cur: Seq<SpanV>,
    pub width: int,
    pub line_start: int,
    pub offset: int,
}

/// `sp` with `k` spaces appended to its text.
pub open spec fn pad(sp: SpanV, k: int) -> SpanV {
    with_text(sp, sp.text + spaces(k as nat))
}

/// Extra spaces given to the `i`-th of `n` gaps when `gap` columns are
/// distributed over them: an equal share, one more for the first
/// `gap % n` gaps.
pub open spec fn gap_share(gap: int, n: int, i: int) -> int {
    gap / n + if i < gap % n { 1int } else { 0int }
}

/// The spans of a full line, stretched to the measure when justification
/// is on: every span but the last receives its share of the missing
/// columns.
pub open spec fn justify(cur: Seq<SpanV>, width: int, p: WrapParams) -> Seq<SpanV> {
    if p.justified && cur.len() > 1 && width < p.max {
        Seq::new(
            cur.len(),
            |i: int|
                if i < cur.len() - 1 {
                    pad(cur[i], gap_share(p.max - width, cur.len() - 1, i))
                } else {
                    cur[i]
                },
        )
    } else {
        cur
    }
}

/// Ends the current line: it is emitted and an empty one begins at the
/// current offset.
pub open spec fn flush(s: WrapState, p: WrapParams) -> WrapState {
    WrapState {
        lines: s.lines.push(text_line(justify(s.cur, s.width, p), p.block, s.line_start, s.offset)),
        cur: Seq::empty(),
        width: 0,
        line_start: s.offset,
        offset: s.offset,
    }
}

/// Places one word with the style of `st`: the line is ended first when
/// the word does not fit after a non-empty line; with hyphenation on, a
/// word wider than the measure and longer than six characters is split in
/// half, the first half (followed by `-`) ending a line.
pub open spec fn place_word(s: WrapState, st: SpanV, w: Seq<char>, p: WrapParams) -> WrapState {
    let ww = text_width(w) as int;
    let s1 = if s.width + ww > p.max && s.cur.len() > 0 {
        flush(s, p)
    } else {
        s
    };
    if p.hyphenation && ww > p.max && w.len() > 6 {
        let mid = w.len() / 2;
        let p1 = w.take(mid as int);
        let p2 = w.skip(mid as int);
        WrapState {
            lines: s1.lines.push(
                text_line(s1.cur.push(with_text(st, p1 + "-"@)), p.block, s1.line_start, s1.offset + mid),
            ),
            cur: seq![with_text(st, p2)],
            width: text_width(p2) as int,
            line_start: s1.offset + mid,
            offset: s1.offset + w.len(),
        }
    } else {
        WrapState {
            lines: s1.lines,
            cur: s1.cur.push(with_text(st, w)),
            width: s1.width + ww,
            line_start: s1.line_start,
            offset: s1.offset + w.len(),
        }
    }
}

/// Places the words of `t` from position `pos` on, in order.
pub open spec fn place_words(s: WrapState, st: SpanV, t: Seq<char>, pos: int, p: WrapParams) -> WrapState
    decreases t.len() - pos,
{
    if pos < 0 || pos >= t.len() {
        s
    } else {
        let e = word_end(t, pos);
        proof { lemma_word_end_bounds(t, pos); }
        place_words(place_word(s, st, t.subrange(pos, e), p), st, t, e, p)
    }
}

/// Places the words of every span, in order.
pub open spec fn place_spans(s: WrapState, spans: Seq<SpanV>, p: WrapParams) -> WrapState
    decreases spans.len(),
{
    if spans.len() == 0 {
        s
    } else {
        place_spans(place_words(s, spans[0], spans[0].text, 0, p), spans.skip(1), p)
    }
}

/// Total number of characters of the spans' texts.
pub open spec fn spans_len(spans: Seq<SpanV>) -> nat
    decreases spans.len(),
{
    if spans.len() == 0 {
        0
    } else {
        spans[0].text.len() + spans_len(spans.skip(1))
    }
}

/// The state in which a paragraph starts at offset `offset`: the first
/// line holds the indentation.
pub open spec fn wrap_init(p: WrapParams, offset: int) -> WrapState {
    WrapState {
        lines: Seq::empty(),
        cur: if p.indent > 0 { seq![plain_span(spaces(p.indent as nat))] } else { Seq::empty() },
        width: p.indent,
        line_start: offset,
        offset,
    }
}

/// The lines of a paragraph made of `spans` starting at `offset`, and the
/// offset after it.
pub open spec fn wrap_spans(spans: Seq<SpanV>, p: WrapParams, offset: int) -> (Seq<LineV>, int) {
    let s = place_spans(wrap_init(p, offset), spans, p);
    (
        if s.cur.len() > 0 {
            s.lines.push(text_line(s.cur, p.block, s.line_start, s.offset))
        } else {
            s.lines
        },
        s.offset,
    )
}

pub proof fn lemma_place_words_offset(s: WrapState, st: SpanV, t: Seq<char>, pos: int, p: WrapParams)
    requires
        0 <= pos <= t.len(),
    ensures
        place_words(s, st, t, pos, p).offset == s.offset + t.len() - pos,
    decreases t.len() - pos,
{
    if pos < t.len() {
        let e = word_end(t, pos);
        lemma_word_end_bounds(t, pos);
        lemma_place_words_offset(place_word(s, st, t.subrange(pos, e), p), st, t, e, p);
    }
}

struct Cursor {
    lines: Vec<WrappedLine>,
    cur: Vec<StyledSpan>,
    width: usize,
    line_start: usize,
    offset: usize,
}

impl Cursor {
    spec fn state(&self) -> WrapState {
        WrapState {
            lines: lviews(self.lines@),
            cur: sviews(self.cur@),
            width: self.width as int,
            line_start: self.line_start as int,
            offset: self.offset as int,
        }
    }

    spec fn wf(&self) -> bool {
        &&& self.cur@.len() == 0 ==> self.width == 0
        &&& self.line_start <= self.offset
    }
}

spec fn params(max: usize, indent: usize, block: usize, hyph: bool, just: bool) -> WrapParams {
    WrapParams {
        max: max as int,
        indent: indent as int,
        block: block as int,
        hyphenation: hyph,
        justified: just,
    }
}

fn justify_spans(cur: Vec<StyledSpan>, width: usize, max_width: usize, justified: bool, Ghost(p): Ghost<WrapParams>) -> (r: Vec<StyledSpan>)
    requires
        max_width <= u16::MAX,
        p.max == max_width,
        p.justified == justified,
    ensures
        sviews(r@) == justify(sviews(cur@), width as int, p),
{
    if justified && cur.len() > 1 && width < max_width {
        let gap = max_width - width;
        let num_gaps = cur.len() - 1;
        let add_per_gap = gap / num_gaps;
        let rem = gap % num_gaps;
        let mut out: Vec<StyledSpan> = Vec::new();
        let mut i: usize = 0;
        while i < cur.len()
            invariant
                i <= cur.len(),
                cur.len() > 1,
                num_gaps == cur.len() - 1,
                gap == max_width - width,
                width < max_width,
                max_width <= u16::MAX,
                add_per_gap == gap / num_gaps,
                rem == gap % num_gaps,
                p.max == max_width,
                p.justified == justified,
                justified,
                sviews(out@) =~= justify(sviews(cur@), width as int, p).take(i as int),
            decreases cur.len() - i,
        {
            let ghost prev = out@;
            if i < num_gaps {
                let extra = add_per_gap + if i < rem { 1 } else { 0 };
                let mut t = owned(cur[i].text.as_str());
                let sp = make_spaces(extra);
                t.append(sp.as_str());
                let s = cur[i].with_text(t);
                out.push(s);
            } else {
                let t = owned(cur[i].text.as_str());
                let s = cur[i].with_text(t);
                out.push(s);
            }
            proof {
                lemma_sviews_push(prev, out@.last());
                assert(out@ =~= prev.push(out@.last()));
            }
            i = i + 1;
        }
        out
    } else {
        cur
    }
}

fn flush_line(c: &mut Cursor, max_width: usize, block_idx: usize, justified: bool, Ghost(p): Ghost<WrapParams>)
    requires
        old(c).wf(),
        max_width <= u16::MAX,
        p.max == max_width,
        p.justified == justified,
        p.block == block_idx,
    ensures
        final(c).wf(),
        final(c).state() == flush(old(c).state(), p),
{
    let mut cur: Vec<StyledSpan> = Vec::new();
    std::mem::swap(&mut cur, &mut c.cur);
    let spans = justify_spans(cur, c.width, max_width, justified, Ghost(p));
    let line = WrappedLine {
        spans,
        block_index: block_idx,
        char_start: c.line_start,
        char_end: c.offset,
        is_empty_line: false,
        image_key: None,
    };
    let ghost prev = c.lines@;
    c.lines.push(line);
    proof {
        lemma_lviews_push(prev, c.lines@.last());
        assert(c.lines@ =~= prev.push(c.lines@.last()));
        assert(sviews(c.cur@) =~= Seq::<SpanV>::empty());
    }
    c.width = 0;
    c.line_start = c.offset;
}


/// Places the word `cs[a..b]` (see `place_word`).
fn place_one_word(
    c: &mut Cursor,
    st: &StyledSpan,
    cs: &Vec<char>,
    a: usize,
    b: usize,
    max_width: usize,
    block_idx: usize,
    hyphenation: bool,
    justified: bool,
    Ghost(p): Ghost<WrapParams>,
)
    requires
        old(c).wf(),
        a < b <= cs.len(),
        max_width <= u16::MAX,
        old(c).offset + (b - a) <= usize::MAX,
        p.max == max_width,
        p.justified == justified,
        p.block == block_idx,
        p.hyphenation == hyphenation,
    ensures
        final(c).wf(),
        final(c).state() == place_word(old(c).state(), st@, cs@.subrange(a as int, b as int), p),
{
    let ghost w = cs@.subrange(a as int, b as int);
    let word = string_of_range(cs, a, b);
    let word_width = str_width(word.as_str());
    let ghost s0 = c.state();
    if (c.width > max_width || word_width > max_width - c.width) && c.cur.len() > 0 {
        flush_line(c, max_width, block_idx, justified, Ghost(p));
    }
    let ghost s1 = c.state();
    assert(s1 == (if s0.width + word_width > p.max && s0.cur.len() > 0 { flush(s0, p) } else { s0 }));
    let n = b - a;
    if hyphenation && word_width > max_width && n > 6 {
        let mid = n / 2;
        let mut p1 = string_of_range(cs, a, a + mid);
        push_char(&mut p1, '-');
        let p2 = string_of_range(cs, a + mid, b);
        proof {
            reveal_strlit("-");
            assert(p1@ =~= w.take(mid as int) + "-"@);
            assert(p2@ =~= w.skip(mid as int));
        }
        let p2_width = str_width(p2.as_str());
        c.offset = c.offset + mid;
        let first = st.with_text(p1);
        let ghost prev_cur = c.cur@;
        c.cur.push(first);
        proof {
            lemma_sviews_push(prev_cur, c.cur@.last());
            assert(c.cur@ =~= prev_cur.push(c.cur@.last()));
        }
        let mut cur: Vec<StyledSpan> = Vec::new();
        std::mem::swap(&mut cur, &mut c.cur);
        let line = WrappedLine {
            spans: cur,
            block_index: block_idx,
            char_start: c.line_start,
            char_end: c.offset,
            is_empty_line: false,
            image_key: None,
        };
        let ghost prev_lines = c.lines@;
        c.lines.push(line);
        proof {
            lemma_lviews_push(prev_lines, c.lines@.last());
            assert(c.lines@ =~= prev_lines.push(c.lines@.last()));
        }
        c.line_start = c.offset;
        c.offset = c.offset + (n - mid);
        let second = st.with_text(p2);
        c.cur.push(second);
        c.width = p2_width;
        proof {
            assert(sviews(c.cur@) =~= seq![with_text(st@, w.skip(mid as int))]);
        }
    } else {
        let ghost prev_cur = c.cur@;
        let sp = st.with_text(word);
        c.cur.push(sp);
        proof {
            lemma_sviews_push(prev_cur, c.cur@.last());
            assert(c.cur@ =~= prev_cur.push(c.cur@.last()));
        }
        c.width = c.width + word_width;
        c.offset = c.offset + n;
    }
}


/// Wraps `spans` into lines at most `max_width` columns wide (save for
/// words that cannot be broken), the first line indented by `indent`
/// spaces; `char_offset` advances over the spans' characters.
fn wrap_spans_into_lines(
    spans: Vec<StyledSpan>,
    max_width: usize,
    indent: usize,
    block_idx: usize,
    hyphenation: bool,
    justified: bool,
    char_offset: &mut usize,
) -> (r: Vec<WrappedLine>)
    requires
        max_width <= u16::MAX,
        indent <= u8::MAX,
        *old(char_offset) + spans_len(sviews(spans@)) <= usize::MAX,
    ensures
        (lviews(r@), *final(char_offset) as int) == wrap_spans(
            sviews(spans@),
            params(max_width, indent, block_idx, hyphenation, justified),
            *old(char_offset) as int,
        ),
{
    let ghost p = params(max_width, indent, block_idx, hyphenation, justified);
    let ghost sv = sviews(spans@);
    let mut c = Cursor {
        lines: Vec::new(),
        cur: Vec::new(),
        width: 0,
        line_start: *char_offset,
        offset: *char_offset,
    };
    if indent > 0 {
        let sp = StyledSpan { text: make_spaces(indent), ..Default::default() };
        c.cur.push(sp);
        c.width = indent;
        proof { assert(sviews(c.cur@) =~= seq![plain_span(spaces(indent as nat))]); }
    }
    proof { assert(sviews(c.cur@) =~= wrap_init(p, *old(char_offset) as int).cur); }
    let ghost fin = place_spans(wrap_init(p, *old(char_offset) as int), sv, p);
    assert(sv.skip(0) =~= sv);
    assert(lviews(c.lines@) =~= Seq::<LineV>::empty());
    assert(c.state() == wrap_init(p, *old(char_offset) as int));
    let mut j: usize = 0;
    while j < spans.len()
        invariant
            j <= spans.len(),
            sv == sviews(spans@),
            c.wf(),
            max_width <= u16::MAX,
            p == params(max_width, indent, block_idx, hyphenation, justified),
            place_spans(c.state(), sv.skip(j as int), p) == fin,
            c.offset + spans_len(sv.skip(j as int)) <= usize::MAX,
        decreases spans.len() - j,
    {
        let cs = chars_of(spans[j].text.as_str());
        assert(sv.skip(j as int)[0] == spans@[j as int]@);
        assert(sv.skip(j as int).skip(1) =~= sv.skip(j + 1));
        let ghost at_span = c.state();
        let mut pos: usize = 0;
        while pos < cs.len()
            invariant
                pos <= cs.len(),
                cs@ == spans@[j as int].text@,
                j < spans.len(),
                sv == sviews(spans@),
                c.wf(),
                max_width <= u16::MAX,
                p == params(max_width, indent, block_idx, hyphenation, justified),
                place_words(c.state(), sv[j as int], cs@, pos as int, p)
                    == place_words(at_span, sv[j as int], cs@, 0, p),
                c.offset + (cs.len() - pos) + spans_len(sv.skip(j + 1)) <= usize::MAX,
            decreases cs.len() - pos,
        {
            let e = find_word_end(&cs, pos);
            place_one_word(&mut c, &spans[j], &cs, pos, e, max_width, block_idx, hyphenation, justified, Ghost(p));
            pos = e;
        }
        proof {
            lemma_place_words_offset(at_span, sv[j as int], cs@, 0, p);
        }
        j = j + 1;
    }
    if c.cur.len() > 0 {
        let mut cur: Vec<StyledSpan> = Vec::new();
        std::mem::swap(&mut cur, &mut c.cur);
        let line = WrappedLine {
            spans: cur,
            block_index: block_idx,
            char_start: c.line_start,
            char_end: c.offset,
            is_empty_line: false,
            image_key: None,
        };
        let ghost prev_lines = c.lines@;
        c.lines.push(line);
        proof {
            lemma_lviews_push(prev_lines, c.lines@.last());
            assert(c.lines@ =~= prev_lines.push(c.lines@.last()));
        }
    }
    *char_offset = c.offset;
    c.lines
}


// ---------------------------------------------------------------------
// Inline flattening

/// A text span in the given heading/quote context.
pub open spec fn ctx_span(text: Seq<char>, h: bool, lvl: u8, q: bool) -> SpanV {
    SpanV { text, is_heading: h, heading_level: lvl, is_quote: q, ..plain_span(text) }
}

pub open spec fn set_bold(s: Seq<SpanV>) -> Seq<SpanV> {
    s.map_values(|x: SpanV| SpanV { bold: true, ..x })
}

pub open spec fn set_italic(s: Seq<SpanV>) -> Seq<SpanV> {
    s.map_values(|x: SpanV| SpanV { italic: true, ..x })
}

pub open spec fn set_underline(s: Seq<SpanV>) -> Seq<SpanV> {
    s.map_values(|x: SpanV| SpanV { underline: true, ..x })
}

pub open spec fn set_strike(s: Seq<SpanV>) -> Seq<SpanV> {
    s.map_values(|x: SpanV| SpanV { strike: true, ..x })
}

pub open spec fn set_link(s: Seq<SpanV>, target: Seq<char>) -> Seq<SpanV> {
    s.map_values(|x: SpanV| SpanV { underline: true, link_target: Some(target), ..x })
}

/// The styled spans of one inline element; formatting elements add their
/// style to every span of their content, hidden content is dropped when
/// the publisher's CSS is respected.
pub open spec fn flat_inline(i: Inline, h: bool, lvl: u8, q: bool, css: bool) -> Seq<SpanV>
    decreases i,
{
    match i {
        Inline::Text(t) => seq![ctx_span(t@, h, lvl, q)],
        Inline::Bold(c) => set_bold(flat_inlines(c@, h, lvl, q, css)),
        Inline::Italic(c) => set_italic(flat_inlines(c@, h, lvl, q, css)),
        Inline::Underline(c) => set_underline(flat_inlines(c@, h, lvl, q, css)),
        Inline::Strike(c) => set_strike(flat_inlines(c@, h, lvl, q, css)),
        Inline::Link { target, inlines } => set_link(flat_inlines(inlines@, h, lvl, q, css), target@),
        Inline::Code(t) => seq![SpanV { code: true, ..ctx_span(t@, h, lvl, q) }],
        Inline::Image { key, alt } => seq![
            SpanV { italic: true, ..plain_span(image_label(alt, "[Img: "@, key@)) },
        ],
        Inline::LineBreak => seq![plain_span(seq!['\n'])],
        Inline::Hidden(c) => if css {
            Seq::empty()
        } else {
            flat_inlines(c@, h, lvl, q, css)
        },
    }
}

pub open spec fn flat_inlines(s: Seq<Inline>, h: bool, lvl: u8, q: bool, css: bool) -> Seq<SpanV>
    decreases s,
{
    if s.len() == 0 {
        Seq::empty()
    } else {
        flat_inlines(s.drop_last(), h, lvl, q, css) + flat_inline(s.last(), h, lvl, q, css)
    }
}

/// Which style a formatting element adds.
enum Mark {
    Bold,
    Italic,
    Underline,
    Strike,
}

spec fn apply_mark(m: Mark, s: Seq<SpanV>) -> Seq<SpanV> {
    match m {
        Mark::Bold => set_bold(s),
        Mark::Italic => set_italic(s),
        Mark::Underline => set_underline(s),
        Mark::Strike => set_strike(s),
    }
}

/// Appends `inner` to `out` with the style `m` added to each span.
fn push_marked(out: &mut Vec<StyledSpan>, inner: Vec<StyledSpan>, m: Mark)
    ensures
        sviews(final(out)@) == sviews(old(out)@) + apply_mark(m, sviews(inner@)),
{
    let mut k: usize = 0;
    while k < inner.len()
        invariant
            k <= inner.len(),
            sviews(out@) =~= sviews(old(out)@) + apply_mark(m, sviews(inner@)).take(k as int),
        decreases inner.len() - k,
    {
        let t = owned(inner[k].text.as_str());
        let mut sp = inner[k].with_text(t);
        match m {
            Mark::Bold => { sp.bold = true; },
            Mark::Italic => { sp.italic = true; },
            Mark::Underline => { sp.underline = true; },
            Mark::Strike => { sp.strike = true; },
        }
        let ghost prev = out@;
        out.push(sp);
        proof {
            lemma_sviews_push(prev, out@.last());
            assert(out@ =~= prev.push(out@.last()));
        }
        k = k + 1;
    }
    assert(apply_mark(m, sviews(inner@)).take(inner.len() as int) =~= apply_mark(m, sviews(inner@)));
}

fn push_linked(out: &mut Vec<StyledSpan>, inner: Vec<StyledSpan>, target: &String)
    ensures
        sviews(final(out)@) == sviews(old(out)@) + set_link(sviews(inner@), target@),
{
    let mut k: usize = 0;
    while k < inner.len()
        invariant
            k <= inner.len(),
            sviews(out@) =~= sviews(old(out)@) + set_link(sviews(inner@), target@).take(k as int),
        decreases inner.len() - k,
    {
        let t = owned(inner[k].text.as_str());
        let mut sp = inner[k].with_text(t);
        sp.underline = true;
        sp.link_target = Some(owned(target.as_str()));
        let ghost prev = out@;
        out.push(sp);
        proof {
            lemma_sviews_push(prev, out@.last());
            assert(out@ =~= prev.push(out@.last()));
        }
        k = k + 1;
    }
    assert(set_link(sviews(inner@), target@).take(inner.len() as int) =~= set_link(sviews(inner@), target@));
}

fn push_span(out: &mut Vec<StyledSpan>, sp: StyledSpan)
    ensures
        sviews(final(out)@) == sviews(old(out)@).push(sp@),
{
    let ghost prev = out@;
    out.push(sp);
    proof {
        lemma_sviews_push(prev, out@.last());
        assert(out@ =~= prev.push(out@.last()));
    }
}

/// The styled spans of `inlines` (see `flat_inlines`).
fn flatten_inlines(inlines: &Vec<Inline>, is_heading: bool, heading_level: u8, is_quote: bool, respect_css: bool) -> (r: Vec<StyledSpan>)
    ensures
        sviews(r@) == flat_inlines(inlines@, is_heading, heading_level, is_quote, respect_css),
    decreases inlines@,
{
    let mut spans: Vec<StyledSpan> = Vec::new();
    let mut i: usize = 0;
    while i < inlines.len()
        invariant
            i <= inlines.len(),
            sviews(spans@) == flat_inlines(inlines@.take(i as int), is_heading, heading_level, is_quote, respect_css),
        decreases inlines.len() - i,
    {
        let ghost before = sviews(spans@);
        assert(inlines@.take(i + 1).drop_last() =~= inlines@.take(i as int));
        assert(inlines@.take(i + 1).last() == inlines@[i as int]);
        match &inlines[i] {
            Inline::Text(t) => {
                push_span(&mut spans, StyledSpan {
                    text: owned(t.as_str()),
                    is_heading,
                    heading_level,
                    is_quote,
                    ..Default::default()
                });
                assert(sviews(spans@) =~= before + seq![ctx_span(t@, is_heading, heading_level, is_quote)]);
            },
            Inline::Bold(c) => {
                let inner = flatten_inlines(c, is_heading, heading_level, is_quote, respect_css);
                push_marked(&mut spans, inner, Mark::Bold);
            },
            Inline::Italic(c) => {
                let inner = flatten_inlines(c, is_heading, heading_level, is_quote, respect_css);
                push_marked(&mut spans, inner, Mark::Italic);
            },
            Inline::Underline(c) => {
                let inner = flatten_inlines(c, is_heading, heading_level, is_quote, respect_css);
                push_marked(&mut spans, inner, Mark::Underline);
            },
            Inline::Strike(c) => {
                let inner = flatten_inlines(c, is_heading, heading_level, is_quote, respect_css);
                push_marked(&mut spans, inner, Mark::Strike);
            },
            Inline::Link { target, inlines: c } => {
                let inner = flatten_inlines(c, is_heading, heading_level, is_quote, respect_css);
                push_linked(&mut spans, inner, target);
            },
            Inline::Code(t) => {
                push_span(&mut spans, StyledSpan {
                    text: owned(t.as_str()),
                    code: true,
                    is_heading,
                    heading_level,
                    is_quote,
                    ..Default::default()
                });
                assert(sviews(spans@) =~= before + seq![SpanV { code: true, ..ctx_span(t@, is_heading, heading_level, is_quote) }]);
            },
            Inline::Image { key, alt } => {
                let label = make_image_label(alt, "[Img: ", key.as_str());
                push_span(&mut spans, StyledSpan { text: label, italic: true, ..Default::default() });
                assert(sviews(spans@) =~= before + flat_inline(inlines@[i as int], is_heading, heading_level, is_quote, respect_css));
            },
            Inline::LineBreak => {
                proof { reveal_strlit("\n"); assert("\n"@ =~= seq!['\n']); }
                push_span(&mut spans, StyledSpan { text: owned("\n"), ..Default::default() });
                assert(sviews(spans@) =~= before + seq![plain_span(seq!['\n'])]);
            },
            Inline::Hidden(c) => {
                if !respect_css {
                    let inner = flatten_inlines(c, is_heading, heading_level, is_quote, respect_css);
                    let mut k: usize = 0;
                    while k < inner.len()
                        invariant
                            k <= inner.len(),
                            sviews(spans@) =~= before + sviews(inner@).take(k as int),
                        decreases inner.len() - k,
                    {
                        let t = owned(inner[k].text.as_str());
                        push_span(&mut spans, inner[k].with_text(t));
                        k = k + 1;
                    }
                    assert(sviews(inner@).take(inner.len() as int) =~= sviews(inner@));
                } else {
                    assert(sviews(spans@) =~= before + Seq::<SpanV>::empty());
                }
            },
        }
        assert(sviews(spans@) =~= before + flat_inline(inlines@[i as int], is_heading, heading_level, is_quote, respect_css));
        i = i + 1;
    }
    assert(inlines@.take(inlines.len() as int) =~= inlines@);
    spans
}


// ---------------------------------------------------------------------
// Blocks

/// The decimal digits of `n`.
pub open spec fn decimal(n: nat) -> Seq<char>
    decreases n,
{
    if n < 10 {
        seq![digit_char(n)]
    } else {
        decimal(n / 10).push(digit_char(n % 10))
    }
}

pub open spec fn digit_char(d: nat) -> char {
    if d == 0 { '0' } else if d == 1 { '1' } else if d == 2 { '2' } else if d == 3 { '3' }
    else if d == 4 { '4' } else if d == 5 { '5' } else if d == 6 { '6' } else if d == 7 { '7' }
    else if d == 8 { '8' } else { '9' }
}

fn digit(d: usize) -> (c: char)
    requires
        d < 10,
    ensures
        c == digit_char(d as nat),
{
    if d == 0 { '0' } else if d == 1 { '1' } else if d == 2 { '2' } else if d == 3 { '3' }
    else if d == 4 { '4' } else if d == 5 { '5' } else if d == 6 { '6' } else if d == 7 { '7' }
    else if d == 8 { '8' } else { '9' }
}

/// `n` written in decimal.
pub fn decimal_string(n: usize) -> (r: String)
    ensures
        r@ == decimal(n as nat),
    decreases n,
{
    if n < 10 {
        let mut r = String::new();
        push_char(&mut r, digit(n));
        assert(r@ =~= seq![digit_char(n as nat)]);
        r
    } else {
        let mut r = decimal_string(n / 10);
        push_char(&mut r, digit(n % 10));
        r
    }
}

/// How blocks of one top-level block are laid out.
pub struct Lctx {
    pub block: int,
    pub measure: int,
    pub indent: int,
    pub simplified: bool,
    pub hyphenation: bool,
    pub justified: bool,
    pub css: bool,
}

pub open spec fn wp(c: Lctx, indent: int, hyph: bool, just: bool) -> WrapParams {
    WrapParams { max: c.measure, indent, block: c.block, hyphenation: hyph, justified: just }
}

/// Nested blocks of a quote: four columns narrower, not indented.
pub open spec fn inner_ctx(c: Lctx) -> Lctx {
    Lctx { measure: if c.measure >= 4 { c.measure - 4 } else { 0 }, indent: 0, ..c }
}

pub open spec fn quote_span() -> SpanV {
    SpanV { is_quote: true, ..plain_span("│ "@) }
}

pub open spec fn bar_line(l: LineV) -> LineV {
    LineV { spans: seq![quote_span()] + l.spans, ..l }
}

/// Quoted lines get the quote bar in front, except in simplified mode.
pub open spec fn quoted(r: (Seq<LineV>, int), simplified: bool) -> (Seq<LineV>, int) {
    if simplified {
        r
    } else {
        (r.0.map_values(|l: LineV| bar_line(l)), r.1)
    }
}

/// The bullet of the `i`-th item (from 0) of a list.
pub open spec fn item_prefix(ordered: bool, i: int) -> Seq<char> {
    if ordered {
        decimal((i + 1) as nat) + ". "@
    } else {
        "• "@
    }
}

/// The lines of one block starting at offset `off`, and the offset after it.
pub open spec fn lay_block(b: Block, c: Lctx, off: int) -> (Seq<LineV>, int)
    decreases b,
{
    match b {
        Block::Paragraph(inl) => wrap_spans(
            flat_inlines(inl@, false, 0, false, c.css),
            wp(c, c.indent, c.hyphenation, c.justified),
            off,
        ),
        Block::Heading { level, inlines } => wrap_spans(
            flat_inlines(inlines@, true, level, false, c.css),
            wp(c, 0, false, false),
            off,
        ),
        Block::Quote(bs) => quoted(lay_blocks(bs@, inner_ctx(c), off), c.simplified),
        Block::Epigraph(bs) => quoted(lay_blocks(bs@, inner_ctx(c), off), c.simplified),
        Block::Annotation(bs) => quoted(lay_blocks(bs@, inner_ctx(c), off), c.simplified),
        Block::Hidden(bs) => if c.css {
            (Seq::empty(), off)
        } else {
            lay_blocks(bs@, c, off)
        },
        Block::List { ordered, items } => lay_items(
            items@,
            ordered,
            c.block,
            c.measure,
            c.hyphenation,
            c.justified,
            c.css,
            off,
        ),
        Block::Table { rows } => lay_rows(rows@, c.block, off),
        Block::Poem { stanzas } => lay_stanzas(stanzas@, c.block, c.measure, c.hyphenation, c.css, off),
        Block::Image { key, alt } => {
            let l = image_label(alt, "[Image: "@, key@);
            (
                seq![
                    LineV {
                        spans: seq![SpanV { italic: true, ..plain_span(l) }],
                        block_index: c.block,
                        char_start: off,
                        char_end: off + l.len(),
                        is_empty_line: false,
                        image_key: Some(key@),
                    },
                ],
                off + l.len(),
            )
        },
        Block::Empty => (seq![blank_line(c.block, off)], off),
    }
}

pub open spec fn lay_blocks(bs: Seq<Block>, c: Lctx, off: int) -> (Seq<LineV>, int)
    decreases bs,
{
    if bs.len() == 0 {
        (Seq::empty(), off)
    } else {
        let r = lay_blocks(bs.drop_last(), c, off);
        let r2 = lay_block(bs.last(), c, r.1);
        (r.0 + r2.0, r2.1)
    }
}

pub open spec fn item_spans(items: Seq<ListItem>, ordered: bool, i: int, css: bool) -> Seq<SpanV> {
    seq![SpanV { bold: true, ..plain_span(item_prefix(ordered, i)) }] + flat_inlines(
        items[i].inlines@,
        false,
        0,
        false,
        css,
    )
}

pub open spec fn lay_items(
    items: Seq<ListItem>,
    ordered: bool,
    block: int,
    measure: int,
    hyph: bool,
    just: bool,
    css: bool,
    off: int,
) -> (Seq<LineV>, int)
    decreases items.len(),
{
    if items.len() == 0 {
        (Seq::empty(), off)
    } else {
        let r = lay_items(items.drop_last(), ordered, block, measure, hyph, just, css, off);
        let r2 = wrap_spans(
            item_spans(items, ordered, items.len() - 1, css),
            WrapParams { max: measure, indent: 2, block, hyphenation: hyph, justified: just },
            r.1,
        );
        (r.0 + r2.0, r2.1)
    }
}

pub open spec fn row_line(t: Seq<char>, block: int, off: int) -> LineV {
    LineV {
        spans: seq![SpanV { code: true, ..plain_span(t) }],
        block_index: block,
        char_start: off,
        char_end: off + t.len(),
        is_empty_line: false,
        image_key: None,
    }
}

pub open spec fn lay_rows(rows: Seq<TableRow>, block: int, off: int) -> (Seq<LineV>, int)
    decreases rows.len(),
{
    if rows.len() == 0 {
        (Seq::empty(), off)
    } else {
        let r = lay_rows(rows.drop_last(), block, off);
        let t = row_text(rows.last());
        (r.0.push(row_line(t, block, r.1)), r.1 + t.len())
    }
}

pub open spec fn lay_lines(
    lines: Seq<Vec<Inline>>,
    block: int,
    measure: int,
    hyph: bool,
    css: bool,
    off: int,
) -> (Seq<LineV>, int)
    decreases lines.len(),
{
    if lines.len() == 0 {
        (Seq::empty(), off)
    } else {
        let r = lay_lines(lines.drop_last(), block, measure, hyph, css, off);
        let r2 = wrap_spans(
            flat_inlines(lines.last()@, false, 0, false, css),
            WrapParams { max: measure, indent: 4, block, hyphenation: hyph, justified: false },
            r.1,
        );
        (r.0 + r2.0, r2.1)
    }
}

pub open spec fn lay_stanzas(
    stanzas: Seq<PoemStanza>,
    block: int,
    measure: int,
    hyph: bool,
    css: bool,
    off: int,
) -> (Seq<LineV>, int)
    decreases stanzas.len(),
{
    if stanzas.len() == 0 {
        (Seq::empty(), off)
    } else {
        let r = lay_stanzas(stanzas.drop_last(), block, measure, hyph, css, off);
        let r2 = lay_lines(stanzas.last().lines@, block, measure, hyph, css, r.1);
        (r.0 + r2.0, r2.1)
    }
}

// Character counts (independent of widths) --------------------------------

pub open spec fn block_chars(b: Block, css: bool) -> nat
    decreases b,
{
    match b {
        Block::Paragraph(inl) => spans_len(flat_inlines(inl@, false, 0, false, css)),
        Block::Heading { level, inlines } => spans_len(flat_inlines(inlines@, true, level, false, css)),
        Block::Quote(bs) => blocks_chars(bs@, css),
        Block::Epigraph(bs) => blocks_chars(bs@, css),
        Block::Annotation(bs) => blocks_chars(bs@, css),
        Block::Hidden(bs) => if css { 0 } else { blocks_chars(bs@, css) },
        Block::List { ordered, items } => items_chars(items@, ordered, css),
        Block::Table { rows } => rows_chars(rows@),
        Block::Poem { stanzas } => stanzas_chars(stanzas@, css),
        Block::Image { key, alt } => image_label(alt, "[Image: "@, key@).len(),
        Block::Empty => 0,
    }
}

pub open spec fn blocks_chars(bs: Seq<Block>, css: bool) -> nat
    decreases bs,
{
    if bs.len() == 0 {
        0
    } else {
        blocks_chars(bs.drop_last(), css) + block_chars(bs.last(), css)
    }
}

pub open spec fn items_chars(items: Seq<ListItem>, ordered: bool, css: bool) -> nat
    decreases items.len(),
{
    if items.len() == 0 {
        0
    } else {
        items_chars(items.drop_last(), ordered, css) + spans_len(item_spans(items, ordered, items.len() - 1, css))
    }
}

pub open spec fn rows_chars(rows: Seq<TableRow>) -> nat
    decreases rows.len(),
{
    if rows.len() == 0 {
        0
    } else {
        rows_chars(rows.drop_last()) + row_text(rows.last()).len()
    }
}

pub open spec fn lines_chars(lines: Seq<Vec<Inline>>, css: bool) -> nat
    decreases lines.len(),
{
    if lines.len() == 0 {
        0
    } else {
        lines_chars(lines.drop_last(), css) + spans_len(flat_inlines(lines.last()@, false, 0, false, css))
    }
}

pub open spec fn stanzas_chars(stanzas: Seq<PoemStanza>, css: bool) -> nat
    decreases stanzas.len(),
{
    if stanzas.len() == 0 {
        0
    } else {
        stanzas_chars(stanzas.drop_last(), css) + lines_chars(stanzas.last().lines@, css)
    }
}

pub proof fn lemma_place_spans_offset(s: WrapState, spans: Seq<SpanV>, p: WrapParams)
    ensures
        place_spans(s, spans, p).offset == s.offset + spans_len(spans),
    decreases spans.len(),
{
    if spans.len() > 0 {
        lemma_place_words_offset(s, spans[0], spans[0].text, 0, p);
        lemma_place_spans_offset(place_words(s, spans[0], spans[0].text, 0, p), spans.skip(1), p);
    }
}

pub proof fn lemma_wrap_offset(spans: Seq<SpanV>, p: WrapParams, off: int)
    ensures
        wrap_spans(spans, p, off).1 == off + spans_len(spans),
{
    lemma_place_spans_offset(wrap_init(p, off), spans, p);
}

pub proof fn lemma_lay_block_offset(b: Block, c: Lctx, off: int)
    ensures
        lay_block(b, c, off).1 == off + block_chars(b, c.css),
    decreases b,
{
    match b {
        Block::Paragraph(inl) => {
            lemma_wrap_offset(flat_inlines(inl@, false, 0, false, c.css), wp(c, c.indent, c.hyphenation, c.justified), off);
        },
        Block::Heading { level, inlines } => {
            lemma_wrap_offset(flat_inlines(inlines@, true, level, false, c.css), wp(c, 0, false, false), off);
        },
        Block::Quote(bs) => { lemma_lay_blocks_offset(bs@, inner_ctx(c), off); },
        Block::Epigraph(bs) => { lemma_lay_blocks_offset(bs@, inner_ctx(c), off); },
        Block::Annotation(bs) => { lemma_lay_blocks_offset(bs@, inner_ctx(c), off); },
        Block::Hidden(bs) => { lemma_lay_blocks_offset(bs@, c, off); },
        Block::List { ordered, items } => {
            lemma_lay_items_offset(items@, ordered, c.block, c.measure, c.hyphenation, c.justified, c.css, off);
        },
        Block::Table { rows } => { lemma_lay_rows_offset(rows@, c.block, off); },
        Block::Poem { stanzas } => {
            lemma_lay_stanzas_offset(stanzas@, c.block, c.measure, c.hyphenation, c.css, off);
        },
        _ => {},
    }
}

pub proof fn lemma_lay_blocks_offset(bs: Seq<Block>, c: Lctx, off: int)
    ensures
        lay_blocks(bs, c, off).1 == off + blocks_chars(bs, c.css),
    decreases bs,
{
    if bs.len() > 0 {
        lemma_lay_blocks_offset(bs.drop_last(), c, off);
        lemma_lay_block_offset(bs.last(), c, lay_blocks(bs.drop_last(), c, off).1);
    }
}

pub proof fn lemma_lay_items_offset(
    items: Seq<ListItem>,
    ordered: bool,
    block: int,
    measure: int,
    hyph: bool,
    just: bool,
    css: bool,
    off: int,
)
    ensures
        lay_items(items, ordered, block, measure, hyph, just, css, off).1 == off + items_chars(items, ordered, css),
    decreases items.len(),
{
    if items.len() > 0 {
        lemma_lay_items_offset(items.drop_last(), ordered, block, measure, hyph, just, css, off);
        lemma_wrap_offset(
            item_spans(items, ordered, items.len() - 1, css),
            WrapParams { max: measure, indent: 2, block, hyphenation: hyph, justified: just },
            lay_items(items.drop_last(), ordered, block, measure, hyph, just, css, off).1,
        );
    }
}

pub proof fn lemma_lay_rows_offset(rows: Seq<TableRow>, block: int, off: int)
    ensures
        lay_rows(rows, block, off).1 == off + rows_chars(rows),
    decreases rows.len(),
{
    if rows.len() > 0 {
        lemma_lay_rows_offset(rows.drop_last(), block, off);
    }
}

pub proof fn lemma_lay_lines_offset(lines: Seq<Vec<Inline>>, block: int, measure: int, hyph: bool, css: bool, off: int)
    ensures
        lay_lines(lines, block, measure, hyph, css, off).1 == off + lines_chars(lines, css),
    decreases lines.len(),
{
    if lines.len() > 0 {
        lemma_lay_lines_offset(lines.drop_last(), block, measure, hyph, css, off);
        lemma_wrap_offset(
            flat_inlines(lines.last()@, false, 0, false, css),
            WrapParams { max: measure, indent: 4, block, hyphenation: hyph, justified: false },
            lay_lines(lines.drop_last(), block, measure, hyph, css, off).1,
        );
    }
}

pub proof fn lemma_lay_stanzas_offset(stanzas: Seq<PoemStanza>, block: int, measure: int, hyph: bool, css: bool, off: int)
    ensures
        lay_stanzas(stanzas, block, measure, hyph, css, off).1 == off + stanzas_chars(stanzas, css),
    decreases stanzas.len(),
{
    if stanzas.len() > 0 {
        lemma_lay_stanzas_offset(stanzas.drop_last(), block, measure, hyph, css, off);
        lemma_lay_lines_offset(stanzas.last().lines@, block, measure, hyph, css, lay_stanzas(stanzas.drop_last(), block, measure, hyph, css, off).1);
    }
}


pub proof fn lemma_blocks_chars_prefix(bs: Seq<Block>, k: int, css: bool)
    requires
        0 <= k <= bs.len(),
    ensures
        blocks_chars(bs.take(k), css) <= blocks_chars(bs, css),
    decreases bs.len(),
{
    if k < bs.len() {
        lemma_blocks_chars_prefix(bs.drop_last(), k, css);
        assert(bs.drop_last().take(k) =~= bs.take(k));
    } else {
        assert(bs.take(k) =~= bs);
    }
}

pub proof fn lemma_items_chars_prefix(items: Seq<ListItem>, k: int, ordered: bool, css: bool)
    requires
        0 <= k <= items.len(),
    ensures
        items_chars(items.take(k), ordered, css) <= items_chars(items, ordered, css),
    decreases items.len(),
{
    if k < items.len() {
        lemma_items_chars_prefix(items.drop_last(), k, ordered, css);
        assert(items.drop_last().take(k) =~= items.take(k));
    } else {
        assert(items.take(k) =~= items);
    }
}

pub proof fn lemma_rows_chars_prefix(rows: Seq<TableRow>, k: int)
    requires
        0 <= k <= rows.len(),
    ensures
        rows_chars(rows.take(k)) <= rows_chars(rows),
    decreases rows.len(),
{
    if k < rows.len() {
        lemma_rows_chars_prefix(rows.drop_last(), k);
        assert(rows.drop_last().take(k) =~= rows.take(k));
    } else {
        assert(rows.take(k) =~= rows);
    }
}

pub proof fn lemma_lines_chars_prefix(lines: Seq<Vec<Inline>>, k: int, css: bool)
    requires
        0 <= k <= lines.len(),
    ensures
        lines_chars(lines.take(k), css) <= lines_chars(lines, css),
    decreases lines.len(),
{
    if k < lines.len() {
        lemma_lines_chars_prefix(lines.drop_last(), k, css);
        assert(lines.drop_last().take(k) =~= lines.take(k));
    } else {
        assert(lines.take(k) =~= lines);
    }
}

pub proof fn lemma_stanzas_chars_prefix(stanzas: Seq<PoemStanza>, k: int, css: bool)
    requires
        0 <= k <= stanzas.len(),
    ensures
        stanzas_chars(stanzas.take(k), css) <= stanzas_chars(stanzas, css),
    decreases stanzas.len(),
{
    if k < stanzas.len() {
        lemma_stanzas_chars_prefix(stanzas.drop_last(), k, css);
        assert(stanzas.drop_last().take(k) =~= stanzas.take(k));
    } else {
        assert(stanzas.take(k) =~= stanzas);
    }
}

pub proof fn lemma_spans_len_cons(a: SpanV, s: Seq<SpanV>)
    ensures
        spans_len(seq![a] + s) == a.text.len() + spans_len(s),
{
    assert((seq![a] + s).skip(1) =~= s);
}

pub open spec fn ctx(
    block: usize,
    measure: usize,
    indent: usize,
    simplified: bool,
    hyph: bool,
    just: bool,
    css: bool,
) -> Lctx {
    Lctx {
        block: block as int,
        measure: measure as int,
        indent: indent as int,
        simplified,
        hyphenation: hyph,
        justified: just,
        css,
    }
}

fn append_lines(dst: &mut Vec<WrappedLine>, src: Vec<WrappedLine>)
    ensures
        lviews(final(dst)@) == lviews(old(dst)@) + lviews(src@),
{
    let mut src = src;
    let ghost s0 = src@;
    dst.append(&mut src);
    assert(lviews(dst@) =~= lviews(old(dst)@) + lviews(s0));
}

fn push_line(dst: &mut Vec<WrappedLine>, l: WrappedLine)
    ensures
        lviews(final(dst)@) == lviews(old(dst)@).push(l@),
{
    let ghost prev = dst@;
    dst.push(l);
    proof {
        lemma_lviews_push(prev, dst@.last());
        assert(dst@ =~= prev.push(dst@.last()));
    }
}

/// Puts the quote bar in front of every line.
fn add_quote_bars(lines: Vec<WrappedLine>) -> (r: Vec<WrappedLine>)
    ensures
        lviews(r@) == quoted((lviews(lines@), 0), false).0,
{
    let ghost orig = lviews(lines@);
    let ghost target = orig.map_values(|l: LineV| bar_line(l));
    assert(target == quoted((orig, 0), false).0);
    let mut src = lines;
    let mut out: Vec<WrappedLine> = Vec::new();
    let ghost mut k: int = 0;
    while src.len() > 0
        invariant
            0 <= k <= orig.len(),
            lviews(src@) == orig.skip(k),
            src@.len() == orig.len() - k,
            lviews(out@) =~= target.take(k),
            target.len() == orig.len(),
            target == orig.map_values(|l: LineV| bar_line(l)),
        decreases src.len(),
    {
        assert(lviews(src@)[0] == src@[0]@);
        let ghost src_before = src@;
        let mut l = src.remove(0);
        assert(src@ =~= src_before.skip(1));
        assert(l@ == orig[k]);
        proof { reveal_strlit("│ "); }
        let bar = StyledSpan { text: owned("│ "), is_quote: true, ..Default::default() };
        let ghost old_spans = l.spans@;
        l.spans.insert(0, bar);
        assert(sviews(l.spans@) =~= seq![quote_span()] + sviews(old_spans));
        assert(0 <= k < orig.len());
        assert(target[k] == bar_line(orig[k]));
        assert(l@ == target[k]);
        push_line(&mut out, l);
        assert(lviews(src@) =~= lviews(src_before).skip(1));
        assert(lviews(src@) =~= orig.skip(k + 1));
        proof { k = k + 1; }
    }
    assert(target.take(orig.len() as int) =~= target);
    out
}

/// The lines of one block (see `lay_block`); `char_offset` advances over
/// the block's characters.
fn layout_block(
    block: &Block,
    block_idx: usize,
    measure: usize,
    indent: usize,
    simplified_mode: bool,
    config: &TypographyConfig,
    respect_css: bool,
    char_offset: &mut usize,
) -> (r: Vec<WrappedLine>)
    requires
        measure <= u16::MAX,
        indent <= u8::MAX,
        *old(char_offset) + block_chars(*block, respect_css) <= usize::MAX,
    ensures
        (lviews(r@), *final(char_offset) as int) == lay_block(
            *block,
            ctx(block_idx, measure, indent, simplified_mode, config.hyphenation, config.justified, respect_css),
            *old(char_offset) as int,
        ),
    decreases block, 1nat,
{
    let ghost c = ctx(block_idx, measure, indent, simplified_mode, config.hyphenation, config.justified, respect_css);
    match block {
        Block::Paragraph(inl) => {
            let spans = flatten_inlines(inl, false, 0, false, respect_css);
            wrap_spans_into_lines(spans, measure, indent, block_idx, config.hyphenation, config.justified, char_offset)
        },
        Block::Heading { level, inlines } => {
            let spans = flatten_inlines(inlines, true, *level, false, respect_css);
            wrap_spans_into_lines(spans, measure, 0, block_idx, false, false, char_offset)
        },
        Block::Quote(bs) | Block::Epigraph(bs) | Block::Annotation(bs) => {
            let inner_measure = if measure >= 4 { measure - 4 } else { 0 };
            let ghost start = *char_offset as int;
            let lines = layout_blocks_seq(bs, block_idx, inner_measure, 0, simplified_mode, config, respect_css, char_offset);
            if simplified_mode {
                lines
            } else {
                add_quote_bars(lines)
            }
        },
        Block::Hidden(bs) => {
            if respect_css {
                Vec::new()
            } else {
                layout_blocks_seq(bs, block_idx, measure, indent, simplified_mode, config, respect_css, char_offset)
            }
        },
        Block::List { ordered, items } => layout_items(items, *ordered, block_idx, measure, config, respect_css, char_offset),
        Block::Table { rows } => layout_rows(rows, block_idx, char_offset),
        Block::Poem { stanzas } => layout_stanzas(stanzas, block_idx, measure, config, respect_css, char_offset),
        Block::Image { key, alt } => {
            let label = make_image_label(alt, "[Image: ", key.as_str());
            let n = label.unicode_len();
            let start = *char_offset;
            *char_offset = start + n;
            let mut spans: Vec<StyledSpan> = Vec::new();
            push_span(&mut spans, StyledSpan { text: label, italic: true, ..Default::default() });
            assert(sviews(spans@) =~= seq![SpanV { italic: true, ..plain_span(image_label(*alt, "[Image: "@, key@)) }]);
            let mut r: Vec<WrappedLine> = Vec::new();
            push_line(&mut r, WrappedLine {
                spans,
                block_index: block_idx,
                char_start: start,
                char_end: *char_offset,
                is_empty_line: false,
                image_key: Some(owned(key.as_str())),
            });
            assert(lviews(r@) =~= lay_block(*block, c, start as int).0);
            r
        },
        Block::Empty => {
            let mut r: Vec<WrappedLine> = Vec::new();
            let ghost no_spans: Seq<StyledSpan> = Seq::empty();
            assert(sviews(no_spans) =~= Seq::<SpanV>::empty());
            push_line(&mut r, WrappedLine {
                spans: Vec::new(),
                block_index: block_idx,
                char_start: *char_offset,
                char_end: *char_offset,
                is_empty_line: true,
                image_key: None,
            });
            assert(lviews(r@) =~= seq![blank_line(block_idx as int, *char_offset as int)]);
            r
        },
    }
}

fn layout_blocks_seq(
    bs: &Vec<Block>,
    block_idx: usize,
    measure: usize,
    indent: usize,
    simplified_mode: bool,
    config: &TypographyConfig,
    respect_css: bool,
    char_offset: &mut usize,
) -> (r: Vec<WrappedLine>)
    requires
        measure <= u16::MAX,
        indent <= u8::MAX,
        *old(char_offset) + blocks_chars(bs@, respect_css) <= usize::MAX,
    ensures
        (lviews(r@), *final(char_offset) as int) == lay_blocks(
            bs@,
            ctx(block_idx, measure, indent, simplified_mode, config.hyphenation, config.justified, respect_css),
            *old(char_offset) as int,
        ),
    decreases bs, 0nat,
{
    let ghost c = ctx(block_idx, measure, indent, simplified_mode, config.hyphenation, config.justified, respect_css);
    let ghost off0 = *old(char_offset) as int;
    let mut out: Vec<WrappedLine> = Vec::new();
    let mut i: usize = 0;
    while i < bs.len()
        invariant
            i <= bs.len(),
            measure <= u16::MAX,
            indent <= u8::MAX,
            off0 + blocks_chars(bs@, respect_css) <= usize::MAX,
            c == ctx(block_idx, measure, indent, simplified_mode, config.hyphenation, config.justified, respect_css),
            (lviews(out@), *char_offset as int) == lay_blocks(bs@.take(i as int), c, off0),
        decreases bs.len() - i,
    {
        proof {
            lemma_lay_blocks_offset(bs@.take(i as int), c, off0);
            lemma_blocks_chars_prefix(bs@, i + 1, respect_css);
            assert(bs@.take(i + 1).drop_last() =~= bs@.take(i as int));
            assert(bs@.take(i + 1).last() == bs@[i as int]);
        }
        let lines = layout_block(&bs[i], block_idx, measure, indent, simplified_mode, config, respect_css, char_offset);
        append_lines(&mut out, lines);
        i = i + 1;
    }
    assert(bs@.take(bs.len() as int) =~= bs@);
    out
}

fn layout_items(
    items: &Vec<ListItem>,
    ordered: bool,
    block_idx: usize,
    measure: usize,
    config: &TypographyConfig,
    respect_css: bool,
    char_offset: &mut usize,
) -> (r: Vec<WrappedLine>)
    requires
        measure <= u16::MAX,
        *old(char_offset) + items_chars(items@, ordered, respect_css) <= usize::MAX,
    ensures
        (lviews(r@), *final(char_offset) as int) == lay_items(
            items@,
            ordered,
            block_idx as int,
            measure as int,
            config.hyphenation,
            config.justified,
            respect_css,
            *old(char_offset) as int,
        ),
{
    let ghost off0 = *old(char_offset) as int;
    let mut out: Vec<WrappedLine> = Vec::new();
    let mut i: usize = 0;
    while i < items.len()
        invariant
            i <= items.len(),
            measure <= u16::MAX,
            off0 + items_chars(items@, ordered, respect_css) <= usize::MAX,
            (lviews(out@), *char_offset as int) == lay_items(
                items@.take(i as int),
                ordered,
                block_idx as int,
                measure as int,
                config.hyphenation,
                config.justified,
                respect_css,
                off0,
            ),
        decreases items.len() - i,
    {
        proof {
            lemma_lay_items_offset(items@.take(i as int), ordered, block_idx as int, measure as int, config.hyphenation, config.justified, respect_css, off0);
            lemma_items_chars_prefix(items@, i + 1, ordered, respect_css);
            assert(items@.take(i + 1).drop_last() =~= items@.take(i as int));
        }
        let prefix = if ordered {
            let mut t = decimal_string(i + 1);
            t.append(". ");
            t
        } else {
            owned("• ")
        };
        let mut spans: Vec<StyledSpan> = Vec::new();
        push_span(&mut spans, StyledSpan { text: prefix, bold: true, ..Default::default() });
        let rest = flatten_inlines(&items[i].inlines, false, 0, false, respect_css);
        let mut rest = rest;
        let ghost head = sviews(spans@);
        let ghost tail = sviews(rest@);
        spans.append(&mut rest);
        assert(sviews(spans@) =~= head + tail);
        assert(sviews(spans@) =~= item_spans(items@.take(i + 1), ordered, i as int, respect_css));
        proof {
            lemma_spans_len_cons(head[0], tail);
            assert(head =~= seq![head[0]]);
        }
        let lines = wrap_spans_into_lines(spans, measure, 2, block_idx, config.hyphenation, config.justified, char_offset);
        append_lines(&mut out, lines);
        i = i + 1;
    }
    assert(items@.take(items.len() as int) =~= items@);
    out
}

fn layout_rows(rows: &Vec<TableRow>, block_idx: usize, char_offset: &mut usize) -> (r: Vec<WrappedLine>)
    requires
        *old(char_offset) + rows_chars(rows@) <= usize::MAX,
    ensures
        (lviews(r@), *final(char_offset) as int) == lay_rows(rows@, block_idx as int, *old(char_offset) as int),
{
    let ghost off0 = *old(char_offset) as int;
    let mut out: Vec<WrappedLine> = Vec::new();
    let mut i: usize = 0;
    while i < rows.len()
        invariant
            i <= rows.len(),
            off0 + rows_chars(rows@) <= usize::MAX,
            (lviews(out@), *char_offset as int) == lay_rows(rows@.take(i as int), block_idx as int, off0),
        decreases rows.len() - i,
    {
        proof {
            lemma_lay_rows_offset(rows@.take(i as int), block_idx as int, off0);
            lemma_rows_chars_prefix(rows@, i + 1);
            assert(rows@.take(i + 1).drop_last() =~= rows@.take(i as int));
        }
        let row_str = row_plain_text(&rows[i]);
        let n = row_str.unicode_len();
        let start = *char_offset;
        *char_offset = start + n;
        let mut spans: Vec<StyledSpan> = Vec::new();
        push_span(&mut spans, StyledSpan { text: row_str, code: true, ..Default::default() });
        assert(sviews(spans@) =~= seq![SpanV { code: true, ..plain_span(row_text(rows@[i as int])) }]);
        assert(rows@.take(i + 1).last() == rows@[i as int]);
        push_line(&mut out, WrappedLine {
            spans,
            block_index: block_idx,
            char_start: start,
            char_end: *char_offset,
            is_empty_line: false,
            image_key: None,
        });
        i = i + 1;
    }
    assert(rows@.take(rows.len() as int) =~= rows@);
    out
}

fn layout_stanzas(
    stanzas: &Vec<PoemStanza>,
    block_idx: usize,
    measure: usize,
    config: &TypographyConfig,
    respect_css: bool,
    char_offset: &mut usize,
) -> (r: Vec<WrappedLine>)
    requires
        measure <= u16::MAX,
        *old(char_offset) + stanzas_chars(stanzas@, respect_css) <= usize::MAX,
    ensures
        (lviews(r@), *final(char_offset) as int) == lay_stanzas(
            stanzas@,
            block_idx as int,
            measure as int,
            config.hyphenation,
            respect_css,
            *old(char_offset) as int,
        ),
{
    let ghost off0 = *old(char_offset) as int;
    let ghost b = block_idx as int;
    let ghost m = measure as int;
    let ghost h = config.hyphenation;
    let mut out: Vec<WrappedLine> = Vec::new();
    let mut s: usize = 0;
    while s < stanzas.len()
        invariant
            s <= stanzas.len(),
            measure <= u16::MAX,
            b == block_idx,
            m == measure,
            h == config.hyphenation,
            off0 + stanzas_chars(stanzas@, respect_css) <= usize::MAX,
            (lviews(out@), *char_offset as int) == lay_stanzas(stanzas@.take(s as int), b, m, h, respect_css, off0),
        decreases stanzas.len() - s,
    {
        proof {
            lemma_lay_stanzas_offset(stanzas@.take(s as int), b, m, h, respect_css, off0);
            lemma_stanzas_chars_prefix(stanzas@, s + 1, respect_css);
            assert(stanzas@.take(s + 1).drop_last() =~= stanzas@.take(s as int));
        }
        let lines = &stanzas[s].lines;
        assert(stanzas@.take(s + 1).last() == stanzas@[s as int]);
        let ghost soff = *char_offset as int;
        let ghost out_before = lviews(out@);
        let mut l: usize = 0;
        while l < lines.len()
            invariant
                l <= lines.len(),
                measure <= u16::MAX,
                b == block_idx,
                m == measure,
                h == config.hyphenation,
                soff + lines_chars(lines@, respect_css) <= usize::MAX,
                lviews(out@) == out_before + lay_lines(lines@.take(l as int), b, m, h, respect_css, soff).0,
                *char_offset as int == lay_lines(lines@.take(l as int), b, m, h, respect_css, soff).1,
            decreases lines.len() - l,
        {
            proof {
                lemma_lay_lines_offset(lines@.take(l as int), b, m, h, respect_css, soff);
                lemma_lines_chars_prefix(lines@, l + 1, respect_css);
                assert(lines@.take(l + 1).drop_last() =~= lines@.take(l as int));
                assert(lines@.take(l + 1).last() == lines@[l as int]);
            }
            let spans = flatten_inlines(&lines[l], false, 0, false, respect_css);
            let wrapped = wrap_spans_into_lines(spans, measure, 4, block_idx, config.hyphenation, false, char_offset);
            let ghost before = lviews(out@);
            append_lines(&mut out, wrapped);
            assert(lviews(out@) =~= out_before + lay_lines(lines@.take(l + 1), b, m, h, respect_css, soff).0);
            l = l + 1;
        }
        assert(lines@.take(lines.len() as int) =~= lines@);
        s = s + 1;
    }
    assert(stanzas@.take(stanzas.len() as int) =~= stanzas@);
    out
}


// ---------------------------------------------------------------------
// Whole book

/// `k` blank lines of block `block` at offset `at`.
pub open spec fn blanks(k: int, block: int, at: int) -> Seq<LineV> {
    Seq::new(if k > 0 { k as nat } else { 0 }, |j: int| blank_line(block, at))
}

pub open spec fn il(ls: Seq<LineV>, n: int, sp: int) -> Seq<LineV>
    decreases ls.len(),
{
    if ls.len() == 0 {
        Seq::empty()
    } else {
        il(ls.drop_last(), n, sp) + seq![ls.last()] + if ls.len() < n {
            blanks(sp - 1, ls.last().block_index, ls.last().char_end)
        } else {
            Seq::empty()
        }
    }
}

/// Line spacing: `sp - 1` blank lines after every line of a block but its
/// last; nothing changes for a spacing of 0 or 1.
pub open spec fn interleave(ls: Seq<LineV>, sp: int) -> Seq<LineV> {
    if sp <= 1 || ls.len() <= 1 {
        ls
    } else {
        il(ls, ls.len() as int, sp)
    }
}

fn interleave_line_spacing(block_lines: Vec<WrappedLine>, spacing: usize) -> (r: Vec<WrappedLine>)
    ensures
        lviews(r@) == interleave(lviews(block_lines@), spacing as int),
{
    if spacing <= 1 || block_lines.len() <= 1 {
        return block_lines;
    }
    let ghost orig = lviews(block_lines@);
    let n = block_lines.len();
    let mut src = block_lines;
    let mut out: Vec<WrappedLine> = Vec::new();
    let mut i: usize = 0;
    while i < n
        invariant
            i <= n,
            n == orig.len(),
            spacing > 1,
            lviews(src@) == orig.skip(i as int),
            src@.len() == n - i,
            lviews(out@) == il(orig.take(i as int), n as int, spacing as int),
        decreases n - i,
    {
        assert(lviews(src@)[0] == src@[0]@);
        let ghost src_before = src@;
        let line = src.remove(0);
        assert(src@ =~= src_before.skip(1));
        assert(lviews(src@) =~= lviews(src_before).skip(1));
        assert(lviews(src@) =~= orig.skip(i + 1));
        assert(line@ == orig[i as int]);
        let block_index = line.block_index;
        let char_pos = line.char_end;
        let ghost before = lviews(out@);
        push_line(&mut out, line);
        if i != n - 1 {
            let mut k: usize = 0;
            while k < spacing - 1
                invariant
                    k <= spacing - 1,
                    i < n,
                    n == orig.len(),
                    lviews(out@) =~= before.push(orig[i as int]) + blanks(k as int, block_index as int, char_pos as int),
                decreases spacing - 1 - k,
            {
                push_line(&mut out, WrappedLine {
                    spans: Vec::new(),
                    block_index,
                    char_start: char_pos,
                    char_end: char_pos,
                    is_empty_line: true,
                    image_key: None,
                });
                let ghost no_spans: Seq<StyledSpan> = Seq::empty();
                assert(sviews(no_spans) =~= Seq::<SpanV>::empty());
                k = k + 1;
            }
        }
        assert(orig.take(i + 1).drop_last() =~= orig.take(i as int));
        assert(orig.take(i + 1).last() == orig[i as int]);
        assert(lviews(out@) =~= il(orig.take(i + 1), n as int, spacing as int));
        i = i + 1;
    }
    assert(orig.take(n as int) =~= orig);
    out
}

/// The lines of a book laid out with the given typography, and the
/// offset after its last character.
pub open spec fn build_lines(
    blocks: Seq<Block>,
    cfg: TypographyConfig,
    simplified: bool,
    css: bool,
    total: int,
) -> (Seq<LineV>, int)
    decreases blocks.len(),
{
    if blocks.len() == 0 {
        (Seq::empty(), 0)
    } else {
        let r = build_lines(blocks.drop_last(), cfg, simplified, css, total);
        let i = blocks.len() - 1;
        let c = Lctx {
            block: i,
            measure: cfg.measure as int,
            indent: if simplified { 0 } else { cfg.paragraph_indent as int },
            simplified,
            hyphenation: cfg.hyphenation,
            justified: cfg.justified,
            css,
        };
        let b = lay_block(blocks.last(), c, r.1);
        let spacing = if simplified { 1 } else { cfg.paragraph_spacing as int };
        let gap = if spacing > 0 && i < total - 1 {
            blanks(spacing, i, b.1)
        } else {
            Seq::empty()
        };
        (r.0 + interleave(b.0, cfg.line_spacing as int) + gap, b.1)
    }
}

pub proof fn lemma_build_offset(blocks: Seq<Block>, cfg: TypographyConfig, simplified: bool, css: bool, total: int)
    ensures
        build_lines(blocks, cfg, simplified, css, total).1 == blocks_chars(blocks, css),
    decreases blocks.len(),
{
    if blocks.len() > 0 {
        lemma_build_offset(blocks.drop_last(), cfg, simplified, css, total);
        let r = build_lines(blocks.drop_last(), cfg, simplified, css, total);
        let i = blocks.len() - 1;
        let c = Lctx {
            block: i,
            measure: cfg.measure as int,
            indent: if simplified { 0 } else { cfg.paragraph_indent as int },
            simplified,
            hyphenation: cfg.hyphenation,
            justified: cfg.justified,
            css,
        };
        lemma_lay_block_offset(blocks.last(), c, r.1);
    }
}

pub struct BookLayout {
    pub lines: Vec<WrappedLine>,
}

/// Where each block begins does not depend on the typography: under any
/// two configurations, simplified or not, the blocks before `k` take up
/// the same characters, so that a character offset names the same place
/// in every layout of a book.
pub proof fn lemma_block_starts_independent_of_config(
    blocks: Seq<Block>,
    k: int,
    cfg1: TypographyConfig,
    simplified1: bool,
    cfg2: TypographyConfig,
    simplified2: bool,
    css: bool,
    total: int,
)
    requires
        0 <= k <= blocks.len(),
    ensures
        build_lines(blocks.take(k), cfg1, simplified1, css, total).1 == build_lines(
            blocks.take(k),
            cfg2,
            simplified2,
            css,
            total,
        ).1,
        build_lines(blocks.take(k), cfg1, simplified1, css, total).1 == blocks_chars(blocks.take(k), css),
{
    lemma_build_offset(blocks.take(k), cfg1, simplified1, css, total);
    lemma_build_offset(blocks.take(k), cfg2, simplified2, css, total);
}

/// `r` is the line at which character offset `off` is shown: scanning
/// from the top, the last line starting at or before `off` before the
/// first line that starts after it; 0 when there is no line.
pub open spec fn is_line_at(lines: Seq<WrappedLine>, off: int, r: int) -> bool {
    &&& (lines.len() == 0 ==> r == 0)
    &&& (lines.len() > 0 ==> 0 <= r < lines.len())
    &&& (r > 0 ==> forall|j: int| 0 <= j <= r ==> #[trigger] lines[j].char_start <= off)
    &&& (r + 1 < lines.len() && lines[0].char_start <= off ==> lines[r + 1].char_start > off)
}

impl BookLayout {
    /// Lays out `book`; content that the publisher's CSS hides is left out
    /// when `respect_css` holds and shown as ordinary text otherwise.
    pub fn build_with_css(book: &Book, config: &TypographyConfig, simplified_mode: bool, respect_css: bool) -> (r: Self)
        requires
            blocks_chars(book.content@, respect_css) <= usize::MAX,
        ensures
            lviews(r.lines@) == build_lines(
                book.content@,
                *config,
                simplified_mode,
                respect_css,
                book.content@.len() as int,
            ).0,
            contiguous(lviews(r.lines@), 0, blocks_chars(book.content@, respect_css) as int),
            blocks_start_at_offsets(lviews(r.lines@), book.content@, respect_css),
    {
        proof {
            let n = book.content@.len() as int;
            lemma_layout_contiguous(book.content@, *config, simplified_mode, respect_css, n);
            lemma_layout_block_starts(book.content@, *config, simplified_mode, respect_css, n);
        }
        let measure = config.measure as usize;
        let indent: usize = if simplified_mode { 0 } else { config.paragraph_indent as usize };
        let spacing: usize = if simplified_mode { 1 } else { config.paragraph_spacing as usize };
        let line_spacing = config.line_spacing as usize;
        let blocks = &book.content;
        let n = blocks.len();
        let mut current_char_offset: usize = 0;
        let mut lines: Vec<WrappedLine> = Vec::new();
        let mut block_idx: usize = 0;
        while block_idx < n
            invariant
                block_idx <= n,
                n == blocks@.len(),
                blocks_chars(blocks@, respect_css) <= usize::MAX,
                measure == config.measure,
                indent == (if simplified_mode { 0 } else { config.paragraph_indent as int }),
                spacing == (if simplified_mode { 1 } else { config.paragraph_spacing as int }),
                line_spacing == config.line_spacing,
                (lviews(lines@), current_char_offset as int) == build_lines(
                    blocks@.take(block_idx as int),
                    *config,
                    simplified_mode,
                    respect_css,
                    n as int,
                ),
            decreases n - block_idx,
        {
            proof {
                lemma_build_offset(blocks@.take(block_idx as int), *config, simplified_mode, respect_css, n as int);
                lemma_blocks_chars_prefix(blocks@, block_idx + 1, respect_css);
                assert(blocks@.take(block_idx + 1).drop_last() =~= blocks@.take(block_idx as int));
                assert(blocks@.take(block_idx + 1).last() == blocks@[block_idx as int]);
            }
            let block_lines = layout_block(
                &blocks[block_idx],
                block_idx,
                measure,
                indent,
                simplified_mode,
                config,
                respect_css,
                &mut current_char_offset,
            );
            let block_lines = interleave_line_spacing(block_lines, line_spacing);
            let ghost before = lviews(lines@);
            append_lines(&mut lines, block_lines);
            let ghost mid = lviews(lines@);
            if spacing > 0 && block_idx < n - 1 {
                let mut k: usize = 0;
                while k < spacing
                    invariant
                        k <= spacing,
                        lviews(lines@) =~= mid + blanks(k as int, block_idx as int, current_char_offset as int),
                    decreases spacing - k,
                {
                    push_line(&mut lines, WrappedLine {
                        spans: Vec::new(),
                        block_index: block_idx,
                        char_start: current_char_offset,
                        char_end: current_char_offset,
                        is_empty_line: true,
                        image_key: None,
                    });
                    let ghost no_spans: Seq<StyledSpan> = Seq::empty();
                    assert(sviews(no_spans) =~= Seq::<SpanV>::empty());
                    k = k + 1;
                }
            } else {
                assert(lviews(lines@) =~= mid + Seq::<LineV>::empty());
            }
            block_idx = block_idx + 1;
        }
        assert(blocks@.take(n as int) =~= blocks@);
        BookLayout { lines }
    }

    /// Lays out `book`, leaving out content that the publisher's CSS hides.
    pub fn build(book: &Book, config: &TypographyConfig, simplified_mode: bool) -> (r: Self)
        requires
            blocks_chars(book.content@, true) <= usize::MAX,
        ensures
            lviews(r.lines@) == build_lines(book.content@, *config, simplified_mode, true, book.content@.len() as int).0,
            contiguous(lviews(r.lines@), 0, blocks_chars(book.content@, true) as int),
            in_reading_order(lviews(r.lines@), 0, blocks_chars(book.content@, true) as int),
            blocks_start_at_offsets(lviews(r.lines@), book.content@, true),
    {
        proof {
            lemma_layout_in_reading_order(book.content@, *config, simplified_mode, true, book.content@.len() as int);
        }
        Self::build_with_css(book, config, simplified_mode, true)
    }

    /// The line at which `char_offset` is shown: scanning from the top, the
    /// last line whose `char_start` is at or before the offset, before the
    /// first line that starts after it (0 for an empty layout).
    pub fn line_at_char_offset(&self, char_offset: usize) -> (r: usize)
        ensures
            is_line_at(self.lines@, char_offset as int, r as int),
    {
        if self.lines.len() == 0 {
            return 0;
        }
        let mut best_idx: usize = 0;
        let mut i: usize = 0;
        while i < self.lines.len() && self.lines[i].char_start <= char_offset
            invariant
                i <= self.lines@.len(),
                self.lines@.len() > 0,
                best_idx < self.lines@.len(),
                i > 0 ==> best_idx == i - 1,
                i == 0 ==> best_idx == 0,
                forall|j: int| 0 <= j < i ==> #[trigger] self.lines@[j].char_start <= char_offset,
            decreases self.lines.len() - i,
        {
            best_idx = i;
            i = i + 1;
        }
        best_idx
    }
}


// Character counts computed with overflow checks ------------------------

proof fn lemma_spans_len_suffix(s: Seq<SpanV>, k: int)
    requires
        0 <= k <= s.len(),
    ensures
        spans_len(s.skip(k)) <= spans_len(s),
    decreases k,
{
    if k > 0 {
        lemma_spans_len_suffix(s, k - 1);
        assert(s.skip(k - 1).skip(1) =~= s.skip(k));
    } else {
        assert(s.skip(0) =~= s);
    }
}

/// The number of characters of the spans' texts, or `None` when it does
/// not fit in a `usize`.
fn spans_char_count(spans: &Vec<StyledSpan>) -> (r: Option<usize>)
    ensures
        r matches Some(n) ==> n == spans_len(sviews(spans@)),
        r is None ==> spans_len(sviews(spans@)) > usize::MAX,
{
    let ghost s = sviews(spans@);
    let mut total: usize = 0;
    let mut i: usize = spans.len();
    assert(s.skip(i as int) =~= Seq::<SpanV>::empty());
    while i > 0
        invariant
            i <= spans@.len(),
            s == sviews(spans@),
            total == spans_len(s.skip(i as int)),
        decreases i,
    {
        let n = spans[i - 1].text.unicode_len();
        proof {
            assert(s.skip(i - 1)[0] == s[i - 1]);
            assert(s.skip(i - 1).skip(1) =~= s.skip(i as int));
        }
        match total.checked_add(n) {
            Some(t) => {
                total = t;
            },
            None => {
                proof { lemma_spans_len_suffix(s, i - 1); }
                return None;
            },
        }
        i = i - 1;
    }
    assert(s.skip(0) =~= s);
    Some(total)
}

/// The number of characters that `blocks` take in a layout (see
/// `blocks_chars`), or `None` when it does not fit in a `usize`.
pub fn blocks_char_count(bs: &Vec<Block>, respect_css: bool) -> (r: Option<usize>)
    ensures
        r matches Some(n) ==> n == blocks_chars(bs@, respect_css),
        r is None ==> blocks_chars(bs@, respect_css) > usize::MAX,
    decreases bs, 0nat,
{
    let mut total: usize = 0;
    let mut i: usize = 0;
    while i < bs.len()
        invariant
            i <= bs.len(),
            total == blocks_chars(bs@.take(i as int), respect_css),
        decreases bs.len() - i,
    {
        proof {
            assert(bs@.take(i + 1).drop_last() =~= bs@.take(i as int));
            assert(bs@.take(i + 1).last() == bs@[i as int]);
            lemma_blocks_chars_prefix(bs@, i + 1, respect_css);
        }
        match block_char_count(&bs[i], respect_css) {
            Some(n) => match total.checked_add(n) {
                Some(t) => {
                    total = t;
                },
                None => {
                    return None;
                },
            },
            None => {
                return None;
            },
        }
        i = i + 1;
    }
    assert(bs@.take(bs.len() as int) =~= bs@);
    Some(total)
}

/// The number of characters that one block takes in a layout.
pub fn block_char_count(b: &Block, respect_css: bool) -> (r: Option<usize>)
    ensures
        r matches Some(n) ==> n == block_chars(*b, respect_css),
        r is None ==> block_chars(*b, respect_css) > usize::MAX,
    decreases b, 1nat,
{
    match b {
        Block::Paragraph(inl) => {
            let spans = flatten_inlines(inl, false, 0, false, respect_css);
            spans_char_count(&spans)
        },
        Block::Heading { level, inlines } => {
            let spans = flatten_inlines(inlines, true, *level, false, respect_css);
            spans_char_count(&spans)
        },
        Block::Quote(bs) | Block::Epigraph(bs) | Block::Annotation(bs) => blocks_char_count(bs, respect_css),
        Block::Hidden(bs) => {
            if respect_css {
                Some(0)
            } else {
                blocks_char_count(bs, respect_css)
            }
        },
        Block::List { ordered, items } => items_char_count(items, *ordered, respect_css),
        Block::Table { rows } => rows_char_count(rows),
        Block::Poem { stanzas } => stanzas_char_count(stanzas, respect_css),
        Block::Image { key, alt } => {
            let label = make_image_label(alt, "[Image: ", key.as_str());
            Some(label.unicode_len())
        },
        Block::Empty => Some(0),
    }
}

fn items_char_count(items: &Vec<ListItem>, ordered: bool, respect_css: bool) -> (r: Option<usize>)
    ensures
        r matches Some(n) ==> n == items_chars(items@, ordered, respect_css),
        r is None ==> items_chars(items@, ordered, respect_css) > usize::MAX,
{
    let mut total: usize = 0;
    let mut i: usize = 0;
    while i < items.len()
        invariant
            i <= items.len(),
            total == items_chars(items@.take(i as int), ordered, respect_css),
        decreases items.len() - i,
    {
        proof {
            assert(items@.take(i + 1).drop_last() =~= items@.take(i as int));
            lemma_items_chars_prefix(items@, i + 1, ordered, respect_css);
        }
        let prefix = if ordered {
            let mut t = decimal_string(i + 1);
            t.append(". ");
            t
        } else {
            owned("• ")
        };
        let rest = flatten_inlines(&items[i].inlines, false, 0, false, respect_css);
        let ghost head = SpanV { bold: true, ..plain_span(item_prefix(ordered, i as int)) };
        proof {
            assert(prefix@ == item_prefix(ordered, i as int));
            assert(items@.take(i + 1)[i as int] == items@[i as int]);
            assert(item_spans(items@.take(i + 1), ordered, i as int, respect_css) =~= seq![head] + sviews(rest@));
            lemma_spans_len_cons(head, sviews(rest@));
        }
        let p = prefix.unicode_len();
        match spans_char_count(&rest) {
            Some(n) => match total.checked_add(p) {
                Some(t1) => match t1.checked_add(n) {
                    Some(t2) => {
                        total = t2;
                    },
                    None => {
                        return None;
                    },
                },
                None => {
                    return None;
                },
            },
            None => {
                return None;
            },
        }
        i = i + 1;
    }
    assert(items@.take(items.len() as int) =~= items@);
    Some(total)
}

fn stanzas_char_count(stanzas: &Vec<PoemStanza>, respect_css: bool) -> (r: Option<usize>)
    ensures
        r matches Some(n) ==> n == stanzas_chars(stanzas@, respect_css),
        r is None ==> stanzas_chars(stanzas@, respect_css) > usize::MAX,
{
    let mut total: usize = 0;
    let mut i: usize = 0;
    while i < stanzas.len()
        invariant
            i <= stanzas.len(),
            total == stanzas_chars(stanzas@.take(i as int), respect_css),
        decreases stanzas.len() - i,
    {
        proof {
            assert(stanzas@.take(i + 1).drop_last() =~= stanzas@.take(i as int));
            lemma_stanzas_chars_prefix(stanzas@, i + 1, respect_css);
        }
        match lines_char_count(&stanzas[i].lines, respect_css) {
            Some(n) => match total.checked_add(n) {
                Some(t) => {
                    total = t;
                },
                None => {
                    return None;
                },
            },
            None => {
                return None;
            },
        }
        i = i + 1;
    }
    assert(stanzas@.take(stanzas.len() as int) =~= stanzas@);
    Some(total)

}

fn rows_char_count(rows: &Vec<TableRow>) -> (r: Option<usize>)
    ensures
        r matches Some(n) ==> n == rows_chars(rows@),
        r is None ==> rows_chars(rows@) > usize::MAX,
{
    let mut total: usize = 0;
    let mut i: usize = 0;
    while i < rows.len()
        invariant
            i <= rows.len(),
            total == rows_chars(rows@.take(i as int)),
        decreases rows.len() - i,
    {
        proof {
            assert(rows@.take(i + 1).drop_last() =~= rows@.take(i as int));
            lemma_rows_chars_prefix(rows@, i + 1);
        }
        let t = row_plain_text(&rows[i]);
        match total.checked_add(t.unicode_len()) {
            Some(x) => {
                total = x;
            },
            None => {
                return None;
            },
        }
        i = i + 1;
    }
    assert(rows@.take(rows.len() as int) =~= rows@);
    Some(total)
}

fn lines_char_count(lines: &Vec<Vec<Inline>>, respect_css: bool) -> (r: Option<usize>)
    ensures
        r matches Some(n) ==> n == lines_chars(lines@, respect_css),
        r is None ==> lines_chars(lines@, respect_css) > usize::MAX,
{
    let mut total: usize = 0;
    let mut i: usize = 0;
    while i < lines.len()
        invariant
            i <= lines.len(),
            total == lines_chars(lines@.take(i as int), respect_css),
        decreases lines.len() - i,
    {
        proof {
            assert(lines@.take(i + 1).drop_last() =~= lines@.take(i as int));
            lemma_lines_chars_prefix(lines@, i + 1, respect_css);
        }
        let spans = flatten_inlines(&lines[i], false, 0, false, respect_css);
        match spans_char_count(&spans) {
            Some(n) => match total.checked_add(n) {
                Some(x) => {
                    total = x;
                },
                None => {
                    return None;
                },
            },
            None => {
                return None;
            },
        }
        i = i + 1;
    }
    assert(lines@.take(lines.len() as int) =~= lines@);
    Some(total)
}

} // verus!
