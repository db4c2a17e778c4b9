//! Full-text search over the blocks of a book, insensitive to case and to
//! diacritics.
use crate::formats::model::{block_text, blocks_texts, Block, Book};
use crate::text::{
    ascii_lower, chars_of, is_ascii_text, lowercase, lowercase_string, push_char, string_of_range,
};
use unicode_normalization::UnicodeNormalization;
use vstd::prelude::*;

verus! {

/// The Unicode compatibility decomposition (NFKD) of a string, as
/// `unicode-normalization` computes it.
pub uninterp spec fn nfkd(s: Seq<char>) -> Seq<char>;

/// `UnicodeNormalization::nfkd`, collected into a string; the contract
/// names the result, and states that ASCII text, which has no
/// decompositions, comes back unchanged (Unicode Standard Annex #15: text
/// made only of ASCII characters is left unaffected by every
/// normalization form).
#[verifier::external_body]
fn nfkd_string(s: &str) -> (r: String)
    ensures
        r@ == nfkd(s@),
        is_ascii_text(s@) ==> r@ == s@,
{
    s.nfkd().collect()
}

/// Combining diacritical marks (the blocks U+0300–U+036F, U+1DC0–U+1DFF,
/// U+20D0–U+20FF and U+FE20–U+FE2F).
pub open spec fn is_combining_mark(c: char) -> bool {
    let u = c as u32;
    (0x0300 <= u <= 0x036F) || (0x1DC0 <= u <= 0x1DFF) || (0x20D0 <= u <= 0x20FF) || (0xFE20 <= u
        <= 0xFE2F)
}

fn c_is_combining_mark(c: char) -> (r: bool)
    ensures
        r == is_combining_mark(c),
{
    let u = c as u32;
    (0x0300 <= u && u <= 0x036F) || (0x1DC0 <= u && u <= 0x1DFF) || (0x20D0 <= u && u <= 0x20FF)
        || (0xFE20 <= u && u <= 0xFE2F)
}

/// `s` without its combining marks.
pub open spec fn strip_marks(s: Seq<char>) -> Seq<char>
    decreases s.len(),
{
    if s.len() == 0 {
        Seq::empty()
    } else if is_combining_mark(s.last()) {
        strip_marks(s.drop_last())
    } else {
        strip_marks(s.drop_last()).push(s.last())
    }
}

/// Stripping leaves no combining mark, and keeps the other characters in
/// order.
pub proof fn lemma_strip_marks_leaves_none(s: Seq<char>)
    ensures
        forall|i: int| 0 <= i < strip_marks(s).len() ==> !is_combining_mark(#[trigger] strip_marks(s)[i]),
        strip_marks(s).len() <= s.len(),
        strip_marks(strip_marks(s)) == strip_marks(s),
    decreases s.len(),
{
    if s.len() > 0 {
        lemma_strip_marks_leaves_none(s.drop_last());
        let p = strip_marks(s.drop_last());
        if !is_combining_mark(s.last()) {
            let q = p.push(s.last());
            assert(q.drop_last() =~= p);
            assert(strip_marks(q) =~= strip_marks(p).push(s.last()));
        }
    }
}

/// ASCII letters lowered, every other character kept.
pub open spec fn ascii_lowered(s: Seq<char>) -> Seq<char> {
    s.map_values(|c: char| ascii_lower(c))
}

/// Lowering ASCII text keeps it ASCII, and lowering it again changes
/// nothing.
pub proof fn lemma_ascii_lowered(s: Seq<char>)
    requires
        is_ascii_text(s),
    ensures
        is_ascii_text(ascii_lowered(s)),
        ascii_lowered(ascii_lowered(s)) == ascii_lowered(s),
{
    assert(ascii_lowered(ascii_lowered(s)) =~= ascii_lowered(s));
}

/// On ASCII text stripping marks changes nothing and lowercasing lowers
/// `A`..`Z`.
proof fn lemma_fold_ascii_parts(x: Seq<char>)
    requires
        is_ascii_text(x),
    ensures
        strip_marks(x) == x,
        lowercase(strip_marks(x)) == ascii_lowered(x),
    decreases x.len(),
{
    if x.len() > 0 {
        lemma_fold_ascii_parts(x.drop_last());
        assert(!is_combining_mark(x[x.len() - 1]));
        assert(x.drop_last().push(x.last()) =~= x);
    } else {
        assert(strip_marks(x) =~= x);
    }
    reveal(lowercase);
}

/// The search key of a text: decomposed, stripped of combining marks,
/// lowercased.
pub open spec fn folded(s: Seq<char>) -> Seq<char> {
    lowercase(strip_marks(nfkd(s)))
}

/// Folds `s` for case- and accent-insensitive matching (see `folded`).
pub fn fold_str(s: &str) -> (r: String)
    ensures
        r@ == folded(s@),
        is_ascii_text(s@) ==> r@ == ascii_lowered(s@),
{
    let decomposed = nfkd_string(s);
    let cs = chars_of(decomposed.as_str());
    let mut kept = String::new();
    let mut i: usize = 0;
    while i < cs.len()
        invariant
            i <= cs.len(),
            kept@ == strip_marks(cs@.take(i as int)),
        decreases cs.len() - i,
    {
        assert(cs@.take(i + 1).drop_last() =~= cs@.take(i as int));
        if !c_is_combining_mark(cs[i]) {
            push_char(&mut kept, cs[i]);
        }
        i = i + 1;
    }
    assert(cs@.take(cs.len() as int) =~= cs@);
    proof {
        if is_ascii_text(s@) {
            lemma_fold_ascii_parts(s@);
        }
    }
    lowercase_string(kept.as_str())
}

#[derive(Debug, PartialEq, Eq)]
pub struct SearchMatch {
    pub block_index: usize,
    pub char_start: usize,
    pub char_end: usize,
    pub snippet: String,
}

/// Mathematical value of a search match.
pub struct MatchV {
    pub block_index: int,
    pub char_start: int,
    pub char_end: int,
    pub snippet: Seq<char>,
}

impl View for SearchMatch {
    type V = MatchV;

    open spec fn view(&self) -> MatchV {
        MatchV {
            block_index: self.block_index as int,
            char_start: self.char_start as int,
            char_end: self.char_end as int,
            snippet: self.snippet@,
        }
    }
}

pub open spec fn occurs_at(t: Seq<char>, q: Seq<char>, p: int) -> bool {
    0 <= p && p + q.len() <= t.len() && t.subrange(p, p + q.len()) == q
}

/// The first position at or after `start` where `q` occurs in `t`.
pub open spec fn first_occurrence(t: Seq<char>, q: Seq<char>, start: int) -> Option<int>
    decreases t.len() + 1 - start,
{
    if start < 0 || start + q.len() > t.len() {
        None
    } else if occurs_at(t, q, start) {
        Some(start)
    } else {
        first_occurrence(t, q, start + 1)
    }
}

pub proof fn lemma_first_occurrence(t: Seq<char>, q: Seq<char>, start: int)
    requires
        start >= 0,
    ensures
        first_occurrence(t, q, start) matches Some(p) ==> start <= p && occurs_at(t, q, p) && (
        forall|j: int| start <= j < p ==> !occurs_at(t, q, j)),
        first_occurrence(t, q, start) is None ==> forall|j: int| start <= j ==> !occurs_at(t, q, j),
    decreases t.len() + 1 - start,
{
    if !(start < 0 || start + q.len() > t.len()) && !occurs_at(t, q, start) {
        lemma_first_occurrence(t, q, start + 1);
    }
}

/// The part of a block's text shown around a match at `p`: from ten
/// characters before it, as long as the query plus twenty characters.
pub open spec fn snippet_of(text: Seq<char>, p: int, qn: int) -> Seq<char> {
    let a0 = if p >= 10 { p - 10 } else { 0 };
    let a = if a0 <= text.len() { a0 } else { text.len() as int };
    let b = if a + qn + 20 <= text.len() { a + qn + 20 } else { text.len() as int };
    text.subrange(a, b)
}

/// The non-overlapping matches of the folded query `q` in the folded text
/// `norm` of block `block`, from position `start` on, left to right.
pub open spec fn block_matches(
    text: Seq<char>,
    norm: Seq<char>,
    q: Seq<char>,
    base: int,
    qn: int,
    block: int,
    start: int,
) -> Seq<MatchV>
    decreases norm.len() - start,
{
    if q.len() == 0 || start < 0 {
        Seq::empty()
    } else {
        match first_occurrence(norm, q, start) {
            None => Seq::empty(),
            Some(p) => {
                proof { lemma_first_occurrence(norm, q, start); }
                seq![
                    MatchV {
                        block_index: block,
                        char_start: base + p,
                        char_end: base + p + qn,
                        snippet: snippet_of(text, p, qn),
                    },
                ] + block_matches(text, norm, q, base, qn, block, p + q.len())
            },
        }
    }
}

pub open spec fn texts_len(s: Seq<Seq<char>>) -> nat
    decreases s.len(),
{
    if s.len() == 0 {
        0
    } else {
        texts_len(s.drop_last()) + s.last().len()
    }
}

pub struct BookSearchIndex {
    pub blocks_text: Vec<String>,
    pub normalized_blocks: Vec<String>,
    pub block_char_offsets: Vec<usize>,
}

pub open spec fn string_views(v: Seq<String>) -> Seq<Seq<char>> {
    v.map_values(|s: String| s@)
}

impl BookSearchIndex {
    /// The index is consistent: one text, one folded text and one start
    /// offset per block, offsets being the running totals of text lengths.
    pub open spec fn wf(&self) -> bool {
        let texts = string_views(self.blocks_text@);
        &&& self.normalized_blocks@.len() == texts.len()
        &&& self.block_char_offsets@.len() == texts.len()
        &&& forall|i: int|
            0 <= i < texts.len() ==> #[trigger] self.normalized_blocks@[i]@ == folded(texts[i])
        &&& forall|i: int|
            0 <= i < texts.len() ==> #[trigger] self.block_char_offsets@[i] == texts_len(texts.take(i))
    }

    /// Indexes the plain text of every block of `book`.
    pub fn build(book: &Book) -> (r: Self)
        requires
            texts_len(blocks_texts(book.content@)) <= usize::MAX,
        ensures
            r.wf(),
            string_views(r.blocks_text@) == blocks_texts(book.content@),
            forall|i: int|
                0 <= i < r.normalized_blocks@.len() && is_ascii_text(string_views(r.blocks_text@)[i])
                    ==> #[trigger] r.normalized_blocks@[i]@ == ascii_lowered(string_views(r.blocks_text@)[i]),
    {
        let mut blocks_text: Vec<String> = Vec::new();
        let mut normalized_blocks: Vec<String> = Vec::new();
        let mut block_char_offsets: Vec<usize> = Vec::new();
        let mut cumulative: usize = 0;
        let blocks = &book.content;
        let mut i: usize = 0;
        while i < blocks.len()
            invariant
                i <= blocks.len(),
                texts_len(blocks_texts(blocks@)) <= usize::MAX,
                string_views(blocks_text@) == blocks_texts(blocks@.take(i as int)),
                normalized_blocks@.len() == i,
                block_char_offsets@.len() == i,
                cumulative == texts_len(blocks_texts(blocks@.take(i as int))),
                string_views(blocks_text@).len() == i,
                forall|j: int|
                    0 <= j < i ==> #[trigger] normalized_blocks@[j]@ == folded(
                        string_views(blocks_text@)[j],
                    ),
                forall|j: int|
                    0 <= j < i && is_ascii_text(string_views(blocks_text@)[j]) ==> #[trigger] normalized_blocks@[j]@
                        == ascii_lowered(string_views(blocks_text@)[j]),
                forall|j: int|
                    0 <= j < i ==> #[trigger] block_char_offsets@[j] == texts_len(
                        string_views(blocks_text@).take(j),
                    ),
            decreases blocks.len() - i,
        {
            let plain = blocks[i].plain_text();
            let norm = fold_str(plain.as_str());
            let n = plain.unicode_len();
            proof {
                assert(blocks@.take(i + 1).drop_last() =~= blocks@.take(i as int));
                assert(blocks@.take(i + 1).last() == blocks@[i as int]);
                lemma_blocks_texts_len(blocks@);
                lemma_blocks_texts_len(blocks@.take(i as int));
                lemma_texts_len_prefix(blocks_texts(blocks@), i + 1);
                lemma_blocks_texts_take(blocks@, i + 1);
                assert(blocks_texts(blocks@.take(i + 1)) == blocks_texts(blocks@.take(i as int)).push(block_text(blocks@[i as int])));
                assert(blocks_texts(blocks@.take(i as int)).push(block_text(blocks@[i as int])).drop_last() =~= blocks_texts(blocks@.take(i as int)));
                assert(texts_len(blocks_texts(blocks@.take(i + 1))) == cumulative + block_text(blocks@[i as int]).len());
            }
            let ghost prev_texts = string_views(blocks_text@);
            block_char_offsets.push(cumulative);
            cumulative = cumulative + n;
            normalized_blocks.push(norm);
            blocks_text.push(plain);
            assert(string_views(blocks_text@) =~= prev_texts.push(block_text(blocks@[i as int])));
            assert forall|j: int| 0 <= j < i + 1 implies #[trigger] block_char_offsets@[j] == texts_len(
                string_views(blocks_text@).take(j),
            ) by {
                assert(string_views(blocks_text@).take(j) =~= prev_texts.take(j));
            }
            i = i + 1;
        }
        assert(blocks@.take(blocks.len() as int) =~= blocks@);
        proof { lemma_blocks_texts_len(blocks@); }
        BookSearchIndex { blocks_text, normalized_blocks, block_char_offsets }
    }
}

/// All matches of the folded query `q` (the query having `qn`
/// characters), block by block.
pub open spec fn all_matches(
    texts: Seq<Seq<char>>,
    norms: Seq<Seq<char>>,
    offsets: Seq<usize>,
    q: Seq<char>,
    qn: int,
) -> Seq<MatchV>
    decreases norms.len(),
{
    if norms.len() == 0 {
        Seq::empty()
    } else {
        let k = norms.len() - 1;
        all_matches(texts, norms.drop_last(), offsets, q, qn) + block_matches(
            texts[k],
            norms[k],
            q,
            offsets[k] as int,
            qn,
            k,
            0,
        )
    }
}

/// The matches that `search` finds for `query` in `ix`.
pub open spec fn matches_of(ix: BookSearchIndex, query: Seq<char>) -> Seq<MatchV> {
    all_matches(
        string_views(ix.blocks_text@),
        string_views(ix.normalized_blocks@),
        ix.block_char_offsets@,
        folded(query),
        query.len() as int,
    )
}

pub open spec fn mviews(v: Seq<SearchMatch>) -> Seq<MatchV> {
    v.map_values(|m: SearchMatch| m@)
}

fn occurs_at_exec(t: &Vec<char>, q: &Vec<char>, p: usize) -> (r: bool)
    requires
        p + q.len() <= t.len(),
    ensures
        r == occurs_at(t@, q@, p as int),
{
    let mut k: usize = 0;
    while k < q.len()
        invariant
            k <= q.len(),
            p + q.len() <= t.len(),
            forall|j: int| 0 <= j < k ==> t@[p + j] == q@[j],
        decreases q.len() - k,
    {
        if t[p + k] != q[k] {
            assert(t@.subrange(p as int, p + q.len())[k as int] != q@[k as int]);
            return false;
        }
        k = k + 1;
    }
    assert(t@.subrange(p as int, p + q.len()) =~= q@);
    true
}

fn find_from(t: &Vec<char>, q: &Vec<char>, start: usize) -> (r: Option<usize>)
    requires
        q.len() > 0,
    ensures
        r matches Some(p) ==> first_occurrence(t@, q@, start as int) == Some(p as int) && start <= p
            && p + q.len() <= t.len(),
        r is None ==> first_occurrence(t@, q@, start as int) is None,
{
    proof { lemma_first_occurrence(t@, q@, start as int); }
    if q.len() > t.len() {
        return None;
    }
    let mut p = start;
    while p <= t.len() - q.len()
        invariant
            start <= p,
            q.len() <= t.len(),
            q.len() > 0,
            forall|j: int| start <= j < p ==> !occurs_at(t@, q@, j),
        decreases t.len() - p,
    {
        if occurs_at_exec(t, q, p) {
            proof { lemma_first_occurrence(t@, q@, start as int); }
            return Some(p);
        }
        p = p + 1;
    }
    proof { lemma_first_occurrence(t@, q@, start as int); }
    None
}

impl BookSearchIndex {
    /// Every non-overlapping occurrence of the folded `query` in the folded
    /// text of each block, block by block and left to right within a
    /// block; an empty folded query matches nothing.
    pub fn search(&self, query: &str) -> (r: Vec<SearchMatch>)
        requires
            self.normalized_blocks@.len() <= self.blocks_text@.len(),
            self.normalized_blocks@.len() <= self.block_char_offsets@.len(),
            forall|i: int|
                0 <= i < self.normalized_blocks@.len() ==> self.block_char_offsets@[i]
                    + #[trigger] self.normalized_blocks@[i]@.len() + query@.len() <= usize::MAX,
        ensures
            mviews(r@) == all_matches(
                string_views(self.blocks_text@),
                string_views(self.normalized_blocks@),
                self.block_char_offsets@,
                folded(query@),
                query@.len() as int,
            ),
            is_ascii_text(query@) ==> mviews(r@) == all_matches(
                string_views(self.blocks_text@),
                string_views(self.normalized_blocks@),
                self.block_char_offsets@,
                ascii_lowered(query@),
                query@.len() as int,
            ),
    {
        let ghost texts = string_views(self.blocks_text@);
        let ghost norms = string_views(self.normalized_blocks@);
        let ghost offs = self.block_char_offsets@;
        let folded_query = fold_str(query);
        let q = chars_of(folded_query.as_str());
        assert(is_ascii_text(query@) ==> q@ == ascii_lowered(query@));
        let query_char_count = query.unicode_len();
        let mut matches: Vec<SearchMatch> = Vec::new();
        if q.len() == 0 {
            assert forall|k: int| 0 <= k <= norms.len() implies all_matches(texts, norms.take(k), offs, q@, query_char_count as int) =~= Seq::<MatchV>::empty() by {
                lemma_all_matches_empty_query(texts, norms.take(k), offs, q@, query_char_count as int);
            }
            assert(norms.take(norms.len() as int) =~= norms);
            return matches;
        }
        let mut b: usize = 0;
        while b < self.normalized_blocks.len()
            invariant
                b <= self.normalized_blocks@.len(),
                q@ == folded(query@),
                q.len() > 0,
                query_char_count == query@.len(),
                texts == string_views(self.blocks_text@),
                norms == string_views(self.normalized_blocks@),
                offs == self.block_char_offsets@,
                self.normalized_blocks@.len() <= self.blocks_text@.len(),
                self.normalized_blocks@.len() <= self.block_char_offsets@.len(),
                forall|i: int|
                    0 <= i < self.normalized_blocks@.len() ==> self.block_char_offsets@[i]
                        + #[trigger] self.normalized_blocks@[i]@.len() + query@.len() <= usize::MAX,
                mviews(matches@) == all_matches(texts, norms.take(b as int), offs, q@, query_char_count as int),
            decreases self.normalized_blocks.len() - b,
        {
            let t = chars_of(self.normalized_blocks[b].as_str());
            let text = chars_of(self.blocks_text[b].as_str());
            let base = self.block_char_offsets[b];
            assert(self.normalized_blocks@[b as int]@.len() == t.len());
            let ghost before = mviews(matches@);
            let ghost whole = block_matches(text@, t@, q@, base as int, query_char_count as int, b as int, 0);
            let mut start: usize = 0;
            loop
                invariant
                    start <= t.len(),
                    q.len() > 0,
                    base + t.len() + query_char_count <= usize::MAX,
                    mviews(matches@) + block_matches(text@, t@, q@, base as int, query_char_count as int, b as int, start as int)
                        == before + whole,
                ensures
                    mviews(matches@) == before + whole,
                decreases t.len() - start,
            {
                let found = find_from(&t, &q, start);
                match found {
                    None => {
                        assert(mviews(matches@) =~= before + whole);
                        break;
                    },
                    Some(p) => {
                        let a0 = if p >= 10 { p - 10 } else { 0 };
                        let a = if a0 <= text.len() { a0 } else { text.len() };
                        let room = text.len() - a;
                        let e = if query_char_count <= room && 20 <= room - query_char_count {
                            a + query_char_count + 20
                        } else {
                            text.len()
                        };
                        let snippet = string_of_range(&text, a, e);
                        let m = SearchMatch {
                            block_index: b,
                            char_start: base + p,
                            char_end: base + p + query_char_count,
                            snippet,
                        };
                        let ghost prev = matches@;
                        matches.push(m);
                        assert(mviews(matches@) =~= mviews(prev).push(m@));
                        let ghost rest = block_matches(text@, t@, q@, base as int, query_char_count as int, b as int, (p + q.len()) as int);
                        assert(mviews(matches@) + rest =~= mviews(prev) + (seq![m@] + rest));
                        start = p + q.len();
                    },
                }
            }
            proof {
                assert(norms.take(b + 1).drop_last() =~= norms.take(b as int));
                assert(norms.take(b + 1)[b as int] == t@);
                assert(texts[b as int] == text@);
                assert(offs[b as int] == base);
                assert(mviews(matches@) == before + whole);
            }
            b = b + 1;
        }
        assert(norms.take(norms.len() as int) =~= norms);
        matches
    }
}

pub proof fn lemma_all_matches_empty_query(
    texts: Seq<Seq<char>>,
    norms: Seq<Seq<char>>,
    offsets: Seq<usize>,
    q: Seq<char>,
    qn: int,
)
    requires
        q.len() == 0,
    ensures
        all_matches(texts, norms, offsets, q, qn) =~= Seq::<MatchV>::empty(),
    decreases norms.len(),
{
    if norms.len() > 0 {
        lemma_all_matches_empty_query(texts, norms.drop_last(), offsets, q, qn);
    }
}

pub proof fn lemma_texts_len_prefix(s: Seq<Seq<char>>, k: int)
    requires
        0 <= k <= s.len(),
    ensures
        texts_len(s.take(k)) <= texts_len(s),
    decreases s.len(),
{
    if k < s.len() {
        lemma_texts_len_prefix(s.drop_last(), k);
        assert(s.drop_last().take(k) =~= s.take(k));
    } else {
        assert(s.take(k) =~= s);
    }
}

pub proof fn lemma_blocks_texts_len(bs: Seq<Block>)
    ensures
        blocks_texts(bs).len() == bs.len(),
    decreases bs.len(),
{
    if bs.len() > 0 {
        lemma_blocks_texts_len(bs.drop_last());
    }
}

pub proof fn lemma_blocks_texts_take(bs: Seq<Block>, k: int)
    requires
        0 <= k <= bs.len(),
    ensures
        blocks_texts(bs.take(k)) == blocks_texts(bs).take(k),
    decreases bs.len(),
{
    lemma_blocks_texts_len(bs);
    lemma_blocks_texts_len(bs.drop_last());
    if k < bs.len() {
        lemma_blocks_texts_take(bs.drop_last(), k);
        assert(bs.drop_last().take(k) =~= bs.take(k));
        assert(blocks_texts(bs).take(k) =~= blocks_texts(bs.drop_last()).take(k));
    } else {
        assert(bs.take(k) =~= bs);
        assert(blocks_texts(bs).take(k) =~= blocks_texts(bs));
    }
}


/// The total number of characters of the blocks' plain texts, or `None`
/// when it does not fit in a `usize`.
pub fn plain_text_char_count(blocks: &Vec<Block>) -> (r: Option<usize>)
    ensures
        r matches Some(n) ==> n == texts_len(blocks_texts(blocks@)),
        r is None ==> texts_len(blocks_texts(blocks@)) > usize::MAX,
{
    let mut total: usize = 0;
    let mut i: usize = 0;
    while i < blocks.len()
        invariant
            i <= blocks.len(),
            total == texts_len(blocks_texts(blocks@.take(i as int))),
        decreases blocks.len() - i,
    {
        let plain = blocks[i].plain_text();
        proof {
            assert(blocks@.take(i + 1).drop_last() =~= blocks@.take(i as int));
            assert(blocks@.take(i + 1).last() == blocks@[i as int]);
            lemma_blocks_texts_len(blocks@);
            lemma_blocks_texts_take(blocks@, i + 1);
            lemma_texts_len_prefix(blocks_texts(blocks@), i + 1);
            assert(blocks_texts(blocks@.take(i + 1)).drop_last() =~= blocks_texts(blocks@.take(i as int)));
        }
        match total.checked_add(plain.unicode_len()) {
            Some(t) => {
                total = t;
            },
            None => {
                return None;
            },
        }
        i = i + 1;
    }
    assert(blocks@.take(blocks.len() as int) =~= blocks@);
    Some(total)
}

impl BookSearchIndex {
    /// Whether `search` can run on `query` with every offset it computes
    /// fitting in a `usize`.
    pub open spec fn can_search(&self, query: Seq<char>) -> bool {
        &&& self.normalized_blocks@.len() <= self.blocks_text@.len()
        &&& self.normalized_blocks@.len() <= self.block_char_offsets@.len()
        &&& forall|i: int|
            0 <= i < self.normalized_blocks@.len() ==> self.block_char_offsets@[i]
                + #[trigger] self.normalized_blocks@[i]@.len() + query.len() <= usize::MAX
    }

    pub fn search_fits(&self, query: &str) -> (r: bool)
        ensures
            r == self.can_search(query@),
    {
        if self.normalized_blocks.len() > self.blocks_text.len()
            || self.normalized_blocks.len() > self.block_char_offsets.len() {
            return false;
        }
        let qn = query.unicode_len();
        let mut i: usize = 0;
        while i < self.normalized_blocks.len()
            invariant
                i <= self.normalized_blocks@.len(),
                self.normalized_blocks@.len() <= self.block_char_offsets@.len(),
                qn == query@.len(),
                forall|j: int|
                    0 <= j < i ==> self.block_char_offsets@[j] + #[trigger] self.normalized_blocks@[j]@.len()
                        + query@.len() <= usize::MAX,
            decreases self.normalized_blocks.len() - i,
        {
            let n = self.normalized_blocks[i].unicode_len();
            let off = self.block_char_offsets[i];
            match off.checked_add(n) {
                Some(a) => match a.checked_add(qn) {
                    Some(_) => {},
                    None => {
                        return false;
                    },
                },
                None => {
                    return false;
                },
            }
            i = i + 1;
        }
        true
    }
}

/// A match names an occurrence of the folded query `q` in the folded
/// text of its block (offsets count from the block's start offset), and
/// spans `qn` characters.
pub open spec fn match_is_occurrence(m: MatchV, norms: Seq<Seq<char>>, offsets: Seq<usize>, q: Seq<char>, qn: int) -> bool {
    &&& 0 <= m.block_index < norms.len()
    &&& occurs_at(norms[m.block_index], q, m.char_start - offsets[m.block_index])
    &&& m.char_end == m.char_start + qn
}

/// Matches come block by block, and left to right without overlapping
/// within a block.
pub open spec fn matches_in_order(ms: Seq<MatchV>, qlen: int) -> bool {
    forall|a: int, b: int|
        0 <= a < b < ms.len() ==> (#[trigger] ms[a].block_index < #[trigger] ms[b].block_index || (
        ms[a].block_index == ms[b].block_index && ms[a].char_start + qlen <= ms[b].char_start))
}

proof fn lemma_block_matches_props(
    text: Seq<char>,
    norm: Seq<char>,
    q: Seq<char>,
    base: int,
    qn: int,
    block: int,
    start: int,
)
    requires
        q.len() > 0,
        start >= 0,
    ensures
        forall|k: int|
            0 <= k < block_matches(text, norm, q, base, qn, block, start).len() ==> {
                let m = #[trigger] block_matches(text, norm, q, base, qn, block, start)[k];
                &&& m.block_index == block
                &&& start <= m.char_start - base
                &&& occurs_at(norm, q, m.char_start - base)
                &&& m.char_end == m.char_start + qn
            },
        forall|a: int, b: int|
            0 <= a < b < block_matches(text, norm, q, base, qn, block, start).len() ==> #[trigger] block_matches(
                text,
                norm,
                q,
                base,
                qn,
                block,
                start,
            )[a].char_start + q.len() <= #[trigger] block_matches(text, norm, q, base, qn, block, start)[b].char_start,
    decreases norm.len() - start,
{
    lemma_first_occurrence(norm, q, start);
    match first_occurrence(norm, q, start) {
        None => {},
        Some(p) => {
            let rest = block_matches(text, norm, q, base, qn, block, p + q.len());
            lemma_block_matches_props(text, norm, q, base, qn, block, p + q.len());
            let all = block_matches(text, norm, q, base, qn, block, start);
            assert(all == seq![all[0]] + rest);
            assert forall|k: int| 0 <= k < all.len() implies {
                let m = #[trigger] all[k];
                &&& m.block_index == block
                &&& start <= m.char_start - base
                &&& occurs_at(norm, q, m.char_start - base)
                &&& m.char_end == m.char_start + qn
            } by {
                if k > 0 {
                    assert(all[k] == rest[k - 1]);
                }
            }
            assert forall|a: int, b: int| 0 <= a < b < all.len() implies #[trigger] all[a].char_start + q.len()
                <= #[trigger] all[b].char_start by {
                assert(all[b] == rest[b - 1]);
                if a > 0 {
                    assert(all[a] == rest[a - 1]);
                }
            }
        },
    }
}

/// What a search reports is sound and ordered: every match is an
/// occurrence of the folded query in the folded text of its block, and
/// the matches come block by block, left to right, without overlapping.
pub proof fn lemma_search_matches_sound(
    texts: Seq<Seq<char>>,
    norms: Seq<Seq<char>>,
    offsets: Seq<usize>,
    q: Seq<char>,
    qn: int,
)
    requires
        q.len() > 0,
        texts.len() >= norms.len(),
        offsets.len() >= norms.len(),
    ensures
        forall|k: int|
            0 <= k < all_matches(texts, norms, offsets, q, qn).len() ==> match_is_occurrence(
                #[trigger] all_matches(texts, norms, offsets, q, qn)[k],
                norms,
                offsets,
                q,
                qn,
            ),
        matches_in_order(all_matches(texts, norms, offsets, q, qn), q.len() as int),
    decreases norms.len(),
{
    if norms.len() > 0 {
        let k = norms.len() - 1;
        let init = norms.drop_last();
        lemma_search_matches_sound(texts, init, offsets, q, qn);
        let prev = all_matches(texts, init, offsets, q, qn);
        let bm = block_matches(texts[k], norms[k], q, offsets[k] as int, qn, k, 0);
        lemma_block_matches_props(texts[k], norms[k], q, offsets[k] as int, qn, k, 0);
        let all = all_matches(texts, norms, offsets, q, qn);
        assert(all == prev + bm);
        assert forall|i: int| 0 <= i < all.len() implies match_is_occurrence(#[trigger] all[i], norms, offsets, q, qn) by {
            if i < prev.len() {
                assert(all[i] == prev[i]);
                assert(match_is_occurrence(prev[i], init, offsets, q, qn));
                assert(norms[prev[i].block_index] == init[prev[i].block_index]);
            } else {
                assert(all[i] == bm[i - prev.len()]);
            }
        }
        assert forall|a: int, b: int| 0 <= a < b < all.len() implies (#[trigger] all[a].block_index
            < #[trigger] all[b].block_index || (all[a].block_index == all[b].block_index && all[a].char_start
            + q.len() <= all[b].char_start)) by {
            if b < prev.len() {
                assert(all[a] == prev[a] && all[b] == prev[b]);
            } else if a < prev.len() {
                assert(all[a] == prev[a] && all[b] == bm[b - prev.len()]);
                assert(match_is_occurrence(prev[a], init, offsets, q, qn));
            } else {
                assert(all[a] == bm[a - prev.len()] && all[b] == bm[b - prev.len()]);
            }
        }
    }
}

} // verus!
