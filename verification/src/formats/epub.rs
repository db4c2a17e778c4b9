//! EPUB books: the container, the package document (metadata, manifest,
//! spine), the NCX table of contents and the XHTML chapters.
use crate::config::keymap::str_eq;
use crate::config::StringMap;
use crate::formats::archive::{zip_member, zip_open_error, zip_open_failure, zip_read};
use crate::formats::encoding::{
    decode_bytes, decoded_text, find_exec, find_from, matches_at_ci, slice_from, slice_range,
};
use crate::formats::fb2::{opt_bytes, root_element, root_element_exec};
use crate::formats::html::{desc_list, desc_seq, html_blocks, html_blocks_into};
use crate::formats::model::{
    bviews, opt_view, str_views, tview, tviews, Block, BlockV, Book, BookFormat, Metadata, MetadataV, TocItem, TocV,
};
use crate::formats::uri::book_id_for_path;
use crate::formats::xml::{
    attr, attr_exec, children_of, document_tree, is_element, lemma_xviews_len, lemma_xviews_take, local_name,
    node_text, node_text_exec, parse_xml, xml_records, xview, xviews, XmlNode, XmlNodeV,
};
use crate::text::{ascii_lower, chars_of, owned, starts_with, starts_with_exec, string_from_chars, trim_chars, trimmed};
use crate::utils::{sha1_hex_of, AppError, Result};
use vstd::prelude::*;
use vstd::utf8::encode_utf8;

verus! {

// ---------------------------------------------------------------------
// Members of the archive

/// `s` without its leading `/` signs.
pub open spec fn trim_slashes(s: Seq<char>) -> Seq<char>
    decreases s.len(),
{
    if s.len() > 0 && s[0] == '/' {
        trim_slashes(s.skip(1))
    } else {
        s
    }
}

/// The bytes of the member at `path`: looked up without leading slashes,
/// then as written.
pub open spec fn member_bytes(a: Seq<u8>, path: Seq<char>) -> Option<Seq<u8>> {
    match zip_member(a, trim_slashes(path)) {
        Ok(b) => Some(b),
        Err(_) => match zip_member(a, path) {
            Ok(b) => Some(b),
            Err(_) => None,
        },
    }
}

fn trim_slashes_exec(s: &str) -> (r: String)
    ensures
        r@ == trim_slashes(s@),
{
    let cs = chars_of(s);
    let mut i: usize = 0;
    assert(cs@.skip(0) =~= cs@);
    while i < cs.len() && cs[i] == '/'
        invariant
            i <= cs@.len(),
            trim_slashes(cs@) == trim_slashes(cs@.skip(i as int)),
        decreases cs.len() - i,
    {
        assert(cs@.skip(i as int).skip(1) =~= cs@.skip(i + 1));
        i = i + 1;
    }
    let rest = slice_from(&cs, i);
    string_from_chars(rest.as_slice())
}

fn read_member(a: &[u8], path: &str) -> (r: Option<Vec<u8>>)
    ensures
        opt_bytes(r) == member_bytes(a@, path@),
{
    let t = trim_slashes_exec(path);
    match zip_read(a, t.as_str()) {
        Ok(b) => Some(b),
        Err(_) => match zip_read(a, path) {
            Ok(b) => Some(b),
            Err(_) => None,
        },
    }
}

fn not_found(path: &str) -> (r: AppError)
    ensures
        r matches AppError::Parse(m) && m@ == "File '"@ + path@ + "' not found in zip archive"@,
{
    let mut m = owned("File '");
    m.append(path);
    m.append("' not found in zip archive");
    AppError::Parse(m)
}

// ---------------------------------------------------------------------
// Searching documents

/// The first of `ds` that `p` accepts.
pub open spec fn first_where(ds: Seq<XmlNodeV>, p: spec_fn(XmlNodeV) -> bool) -> Option<XmlNodeV>
    decreases ds.len(),
{
    if ds.len() == 0 {
        None
    } else if p(ds[0]) {
        Some(ds[0])
    } else {
        first_where(ds.skip(1), p)
    }
}

proof fn lemma_first_where_concat(a: Seq<XmlNodeV>, b: Seq<XmlNodeV>, p: spec_fn(XmlNodeV) -> bool)
    ensures
        first_where(a + b, p) == match first_where(a, p) {
            Some(x) => Some(x),
            None => first_where(b, p),
        },
    decreases a.len(),
{
    if a.len() == 0 {
        assert(a + b =~= b);
    } else {
        assert((a + b).skip(1) =~= a.skip(1) + b);
        assert((a + b)[0] == a[0]);
        lemma_first_where_concat(a.skip(1), b, p);
    }
}

/// The name `n`, ASCII case aside, is `lower` (lowercase).
pub open spec fn name_ci(n: Seq<char>, lower: Seq<char>) -> bool {
    n.len() == lower.len() && matches_at_ci(n, lower, 0)
}

pub(crate) fn name_ci_exec(n: &String, lower: &str) -> (r: bool)
    ensures
        r == name_ci(n@, lower@),
{
    let a = chars_of(n.as_str());
    let b = chars_of(lower);
    if a.len() != b.len() {
        return false;
    }
    let mut k: usize = 0;
    while k < b.len()
        invariant
            k <= b@.len(),
            a@.len() == b@.len(),
            a@ == n@,
            b@ == lower@,
            forall|j: int| 0 <= j < k ==> ascii_lower(#[trigger] a@[0 + j]) == b@[j],
        decreases b.len() - k,
    {
        let c = a[k];
        let lc = if 'A' <= c && c <= 'Z' { ((c as u32) + 32) as u8 as char } else { c };
        assert(lc == ascii_lower(c)) by {
            if 'A' <= c && c <= 'Z' {
                assert((c as u32) + 32 < 128);
            }
        };
        if lc != b[k] {
            assert(!matches_at_ci(n@, lower@, 0)) by {
                assert(ascii_lower(a@[0 + k as int]) != b@[k as int]);
            };
            return false;
        }
        k = k + 1;
    }
    true
}

pub open spec fn is_rootfile(d: XmlNodeV) -> bool {
    is_element(d) && local_name(d) == "rootfile"@ && attr(d, "full-path"@) is Some
}

/// What a search through a document looks for.
#[derive(Clone, Copy)]
pub enum Wanted {
    /// A `rootfile` element with a `full-path`.
    Rootfile,
    /// A `body` element (ASCII case aside).
    Body,
}

pub open spec fn wanted(w: Wanted) -> spec_fn(XmlNodeV) -> bool {
    match w {
        Wanted::Rootfile => |d: XmlNodeV| is_rootfile(d),
        Wanted::Body => |d: XmlNodeV| is_body(d),
    }
}

fn is_wanted(n: &XmlNode, w: Wanted) -> (r: bool)
    ensures
        r == wanted(w)(xview(*n)),
{
    match n {
        XmlNode::Element { name, .. } => match w {
            Wanted::Rootfile => str_eq(name.as_str(), "rootfile") && attr_exec(n, "full-path").is_some(),
            Wanted::Body => name_ci_exec(name, "body"),
        },
        _ => false,
    }
}

pub open spec fn is_body(d: XmlNodeV) -> bool {
    is_element(d) && name_ci(local_name(d), "body"@)
}

/// The first node at or under `n` that the search wants.
fn find_first(n: &XmlNode, w: Wanted) -> (r: Option<&XmlNode>)
    ensures
        match r {
            Some(x) => first_where(desc_list(xview(*n)), wanted(w)) == Some(xview(*x)),
            None => first_where(desc_list(xview(*n)), wanted(w)) is None,
        },
    decreases n, 1nat,
{
    let ghost p = wanted(w);
    let ghost xn = xview(*n);
    match n {
        XmlNode::Element { children, .. } => {
            proof {
                lemma_first_where_concat(seq![xn], desc_seq(xviews(children@)), p);
                assert(seq![xn][0] == xn);
                assert(seq![xn].skip(1) =~= Seq::<XmlNodeV>::empty());
            }
            if is_wanted(n, w) {
                assert(p(xn));
                assert(seq![xn][0] == xn);
                assert(first_where(seq![xn], p) == Some(xn));
                return Some(n);
            }
            assert(!p(xn));
            assert(seq![xn][0] == xn);
            assert(seq![xn].skip(1) =~= Seq::<XmlNodeV>::empty());
            assert(first_where(seq![xn].skip(1), p) is None);
            assert(first_where(seq![xn], p) is None);
            let r = find_first_seq(children, w);
            assert(desc_list(xn) == seq![xn] + desc_seq(xviews(children@)));
            r
        },
        _ => {
            assert(seq![xn][0] == xn);
            assert(seq![xn].skip(1) =~= Seq::<XmlNodeV>::empty());
            assert(first_where(seq![xn].skip(1), p) is None);
            if is_wanted(n, w) {
                return Some(n);
            }
            None
        },
    }
}

fn find_first_seq(cs: &Vec<XmlNode>, w: Wanted) -> (r: Option<&XmlNode>)
    ensures
        match r {
            Some(x) => first_where(desc_seq(xviews(cs@)), wanted(w)) == Some(xview(*x)),
            None => first_where(desc_seq(xviews(cs@)), wanted(w)) is None,
        },
    decreases cs, 0nat,
{
    let ghost p = wanted(w);
    let mut i: usize = 0;
    proof {
        lemma_xviews_len(cs@);
        assert(xviews(cs@.take(0)) =~= Seq::<XmlNodeV>::empty());
    }
    while i < cs.len()
        invariant
            i <= cs@.len(),
            p == wanted(w),
            first_where(desc_seq(xviews(cs@.take(i as int))), p) is None,
        decreases cs.len() - i,
    {
        let ghost xs = xviews(cs@.take(i as int));
        let ghost x = xview(cs@[i as int]);
        proof {
            lemma_xviews_take(cs@, i as int);
            assert(xs.push(x).drop_last() =~= xs);
            assert(xs.push(x).last() == x);
            lemma_first_where_concat(desc_seq(xs), desc_list(x), p);
        }
        match find_first(&cs[i], w) {
            Some(found) => {
                assert(first_where(desc_list(x), p) is Some);
                proof {
                    lemma_first_where_prefix_none(cs@, i as int, p);
                }
                return Some(found);
            },
            None => {},
        }
        i = i + 1;
    }
    assert(cs@.take(cs@.len() as int) =~= cs@);
    None
}

/// Once a prefix of the children has no match, the first match among all
/// of them is that of the rest.
proof fn lemma_first_where_prefix_none(cs: Seq<XmlNode>, i: int, p: spec_fn(XmlNodeV) -> bool)
    requires
        0 <= i < cs.len(),
        first_where(desc_seq(xviews(cs.take(i))), p) is None,
        first_where(desc_list(xview(cs[i])), p) is Some,
    ensures
        first_where(desc_seq(xviews(cs)), p) == first_where(desc_list(xview(cs[i])), p),
    decreases cs.len() - i,
{
    lemma_xviews_take(cs, i);
    let xs = xviews(cs.take(i));
    let x = xview(cs[i]);
    assert(xs.push(x).drop_last() =~= xs);
    assert(xs.push(x).last() == x);
    lemma_first_where_concat(desc_seq(xs), desc_list(x), p);
    lemma_first_where_extend(cs, i + 1, p);
}

/// A match within the first `k` children stays the first match.
proof fn lemma_first_where_extend(cs: Seq<XmlNode>, k: int, p: spec_fn(XmlNodeV) -> bool)
    requires
        0 <= k <= cs.len(),
        first_where(desc_seq(xviews(cs.take(k))), p) is Some,
    ensures
        first_where(desc_seq(xviews(cs)), p) == first_where(desc_seq(xviews(cs.take(k))), p),
    decreases cs.len() - k,
{
    if k < cs.len() {
        lemma_xviews_take(cs, k);
        let xs = xviews(cs.take(k));
        let x = xview(cs[k]);
        assert(xs.push(x).drop_last() =~= xs);
        assert(xs.push(x).last() == x);
        lemma_first_where_concat(desc_seq(xs), desc_list(x), p);
        lemma_first_where_extend(cs, k + 1, p);
    } else {
        assert(cs.take(k) =~= cs);
    }
}


// ---------------------------------------------------------------------
// The NCX table of contents

/// The label and target read from the children of a `navPoint`: the text
/// of the first `text` element of a `navLabel`, trimmed, and the `src` of
/// a `content` element (the last of each wins).
pub open spec fn nav_fold(cs: Seq<XmlNodeV>) -> (Seq<char>, Seq<char>)
    decreases cs.len(),
{
    if cs.len() == 0 {
        (Seq::empty(), Seq::empty())
    } else {
        let prev = nav_fold(cs.drop_last());
        let c = cs.last();
        if !is_element(c) {
            prev
        } else if name_ci(local_name(c), "navlabel"@) {
            match first_text_child(children_of(c)) {
                Some(t) => match node_text(t) {
                    Some(x) => (trimmed(x), prev.1),
                    None => prev,
                },
                None => prev,
            }
        } else if name_ci(local_name(c), "content"@) {
            match attr(c, "src"@) {
                Some(src) => (prev.0, src),
                None => prev,
            }
        } else {
            prev
        }
    }
}

/// The first `text` element (ASCII case aside) among `cs`.
pub open spec fn first_text_child(cs: Seq<XmlNodeV>) -> Option<XmlNodeV>
    decreases cs.len(),
{
    if cs.len() == 0 {
        None
    } else if is_element(cs[0]) && name_ci(local_name(cs[0]), "text"@) {
        Some(cs[0])
    } else {
        first_text_child(cs.skip(1))
    }
}

/// The contents entry of a `navPoint` element with a non-empty label.
pub open spec fn nav_entry(d: XmlNodeV) -> Option<TocV> {
    if is_element(d) && name_ci(local_name(d), "navpoint"@) && nav_fold(children_of(d)).0.len() > 0 {
        let f = nav_fold(children_of(d));
        Some(TocV { title: f.0, target_href: f.1, block_index: 0, children: Seq::empty() })
    } else {
        None
    }
}

/// The entries of the `navPoint` elements among `ds`, in order.
pub open spec fn nav_entries(ds: Seq<XmlNodeV>) -> Seq<TocV>
    decreases ds.len(),
{
    if ds.len() == 0 {
        Seq::empty()
    } else {
        match nav_entry(ds.last()) {
            Some(e) => nav_entries(ds.drop_last()).push(e),
            None => nav_entries(ds.drop_last()),
        }
    }
}

proof fn lemma_nav_entries_concat(a: Seq<XmlNodeV>, b: Seq<XmlNodeV>)
    ensures
        nav_entries(a + b) == nav_entries(a) + nav_entries(b),
    decreases b.len(),
{
    if b.len() == 0 {
        assert(a + b =~= a);
        assert(nav_entries(a) + nav_entries(b) =~= nav_entries(a));
    } else {
        lemma_nav_entries_concat(a, b.drop_last());
        assert((a + b).drop_last() =~= a + b.drop_last());
        assert((a + b).last() == b.last());
        let r = nav_entries(a) + nav_entries(b.drop_last());
        match nav_entry(b.last()) {
            Some(e) => assert(nav_entries(a) + nav_entries(b) =~= r.push(e)),
            None => assert(nav_entries(a) + nav_entries(b) =~= r),
        }
    }
}

fn first_text_child_text(cs: &Vec<XmlNode>) -> (r: Option<Option<String>>)
    ensures
        match first_text_child(xviews(cs@)) {
            Some(t) => r matches Some(o) && opt_view(o) == node_text(t),
            None => r is None,
        },
{
    let mut i: usize = 0;
    proof {
        lemma_xviews_len(cs@);
        assert(xviews(cs@).skip(0) =~= xviews(cs@));
    }
    while i < cs.len()
        invariant
            i <= cs@.len(),
            xviews(cs@).len() == cs@.len(),
            first_text_child(xviews(cs@)) == first_text_child(xviews(cs@).skip(i as int)),
        decreases cs.len() - i,
    {
        proof {
            crate::formats::xml::lemma_xviews_index(cs@, i as int);
            assert(xviews(cs@).skip(i as int)[0] == xview(cs@[i as int]));
            assert(xviews(cs@).skip(i as int).skip(1) =~= xviews(cs@).skip(i + 1));
        }
        match &cs[i] {
            XmlNode::Element { name, .. } => {
                if name_ci_exec(name, "text") {
                    return Some(node_text_exec(&cs[i]));
                }
            },
            _ => {},
        }
        i = i + 1;
    }
    None
}

fn nav_entry_exec(n: &XmlNode) -> (r: Option<TocItem>)
    ensures
        match nav_entry(xview(*n)) {
            Some(e) => r matches Some(t) && tview(t) == e,
            None => r is None,
        },
{
    match n {
        XmlNode::Element { name, children, .. } => {
            if !name_ci_exec(name, "navpoint") {
                return None;
            }
            let mut title = String::new();
            let mut target = String::new();
            let mut i: usize = 0;
            proof {
                lemma_xviews_len(children@);
                assert(xviews(children@.take(0)) =~= Seq::<XmlNodeV>::empty());
            }
            while i < children.len()
                invariant
                    i <= children@.len(),
                    (title@, target@) == nav_fold(xviews(children@.take(i as int))),
                decreases children.len() - i,
            {
                proof {
                    lemma_xviews_take(children@, i as int);
                    let xs = xviews(children@.take(i as int));
                    let x = xview(children@[i as int]);
                    assert(xs.push(x).drop_last() =~= xs);
                    assert(xs.push(x).last() == x);
                }
                match &children[i] {
                    XmlNode::Element { name: cn, children: cc, .. } => {
                        if name_ci_exec(cn, "navlabel") {
                            match first_text_child_text(cc) {
                                Some(Some(t)) => {
                                    let tt = trim_chars(t.as_str());
                                    title = string_from_chars(tt.as_slice());
                                },
                                _ => {},
                            }
                        } else if name_ci_exec(cn, "content") {
                            match attr_exec(&children[i], "src") {
                                Some(src) => {
                                    target = src;
                                },
                                None => {},
                            }
                        }
                    },
                    _ => {},
                }
                i = i + 1;
            }
            assert(children@.take(children@.len() as int) =~= children@);
            if title.unicode_len() > 0 {
                let ghost no: Seq<TocItem> = Seq::empty();
                assert(tviews(no) =~= Seq::<TocV>::empty());
                Some(TocItem { title, target_href: target, block_index: 0, children: Vec::new() })
            } else {
                None
            }
        },
        _ => None,
    }
}

fn push_toc(out: &mut Vec<TocItem>, t: TocItem)
    ensures
        tviews(final(out)@) == tviews(old(out)@).push(tview(t)),
{
    let ghost prev = out@;
    out.push(t);
    assert(out@.drop_last() =~= prev);
}

/// The entries of the `navPoint` elements at and under `n`.
fn collect_nav(n: &XmlNode, toc: &mut Vec<TocItem>)
    ensures
        tviews(final(toc)@) == tviews(old(toc)@) + nav_entries(desc_list(xview(*n))),
    decreases n, 1nat,
{
    let ghost t0 = tviews(toc@);
    let ghost xn = xview(*n);
    proof {
        assert(seq![xn].drop_last() =~= Seq::<XmlNodeV>::empty());
        assert(seq![xn].last() == xn);
        assert(nav_entries(Seq::<XmlNodeV>::empty()) =~= Seq::<TocV>::empty());
    }
    match nav_entry_exec(n) {
        Some(t) => push_toc(toc, t),
        None => {},
    }
    assert(tviews(toc@) =~= t0 + nav_entries(seq![xn]));
    match n {
        XmlNode::Element { children, .. } => {
            proof {
                lemma_nav_entries_concat(seq![xn], desc_seq(xviews(children@)));
            }
            collect_nav_seq(children, toc);
            assert(tviews(toc@) =~= t0 + nav_entries(desc_list(xn)));
        },
        _ => {},
    }
}

fn collect_nav_seq(cs: &Vec<XmlNode>, toc: &mut Vec<TocItem>)
    ensures
        tviews(final(toc)@) == tviews(old(toc)@) + nav_entries(desc_seq(xviews(cs@))),
    decreases cs, 0nat,
{
    let ghost t0 = tviews(toc@);
    let mut i: usize = 0;
    proof {
        lemma_xviews_len(cs@);
        assert(xviews(cs@.take(0)) =~= Seq::<XmlNodeV>::empty());
        assert(t0 + nav_entries(Seq::<XmlNodeV>::empty()) =~= t0);
    }
    while i < cs.len()
        invariant
            i <= cs@.len(),
            tviews(toc@) == t0 + nav_entries(desc_seq(xviews(cs@.take(i as int)))),
        decreases cs.len() - i,
    {
        proof {
            lemma_xviews_take(cs@, i as int);
            let xs = xviews(cs@.take(i as int));
            let x = xview(cs@[i as int]);
            assert(xs.push(x).drop_last() =~= xs);
            assert(xs.push(x).last() == x);
            lemma_nav_entries_concat(desc_seq(xs), desc_list(x));
        }
        collect_nav(&cs[i], toc);
        i = i + 1;
    }
    assert(cs@.take(cs@.len() as int) =~= cs@);
}


// ---------------------------------------------------------------------
// The package document

/// The metadata read so far, the authors found and the cover's id.
pub struct MetaState {
    pub meta: MetadataV,
    pub authors: Seq<Seq<char>>,
    pub cover: Option<Seq<char>>,
}

/// One child of the package's `metadata` element.
pub open spec fn meta_step(st: MetaState, c: XmlNodeV) -> MetaState {
    let m = st.meta;
    let name = local_name(c);
    if !is_element(c) {
        st
    } else if name == "title"@ {
        match node_text(c) {
            Some(t) => MetaState { meta: MetadataV { title: trimmed(t), ..m }, ..st },
            None => st,
        }
    } else if name == "creator"@ {
        match node_text(c) {
            Some(a) => MetaState { authors: st.authors.push(trimmed(a)), ..st },
            None => st,
        }
    } else if name == "subject"@ {
        match node_text(c) {
            Some(g) => MetaState { meta: MetadataV { genres: m.genres.push(trimmed(g)), ..m }, ..st },
            None => st,
        }
    } else if name == "description"@ {
        match node_text(c) {
            Some(d) => MetaState { meta: MetadataV { annotation: Some(trimmed(d)), ..m }, ..st },
            None => st,
        }
    } else if name == "meta"@ && attr(c, "name"@) == Some("cover"@) && attr(c, "content"@) is Some {
        MetaState { cover: attr(c, "content"@), ..st }
    } else {
        st
    }
}

pub open spec fn meta_fold(cs: Seq<XmlNodeV>, m0: MetadataV, cover0: Option<Seq<char>>) -> MetaState
    decreases cs.len(),
{
    if cs.len() == 0 {
        MetaState { meta: m0, authors: Seq::empty(), cover: cover0 }
    } else {
        meta_step(meta_fold(cs.drop_last(), m0, cover0), cs.last())
    }
}

/// A `creator` element with text.
pub open spec fn is_creator(c: XmlNodeV) -> bool {
    is_element(c) && local_name(c) == "creator"@ && node_text(c) is Some
}

/// A `subject` element with text.
pub open spec fn is_subject(c: XmlNodeV) -> bool {
    is_element(c) && local_name(c) == "subject"@ && node_text(c) is Some
}

/// The trimmed texts of the `creator` elements among `cs`, in order.
pub open spec fn creators(cs: Seq<XmlNodeV>) -> Seq<Seq<char>> {
    cs.filter(|c: XmlNodeV| is_creator(c)).map_values(|c: XmlNodeV| trimmed(node_text(c)->0))
}

/// The trimmed texts of the `subject` elements among `cs`, in order.
pub open spec fn subjects(cs: Seq<XmlNodeV>) -> Seq<Seq<char>> {
    cs.filter(|c: XmlNodeV| is_subject(c)).map_values(|c: XmlNodeV| trimmed(node_text(c)->0))
}

/// The package metadata keeps every creator and every subject, in
/// document order: the authors are the creators' texts, one per
/// `creator` element, and the genres those given before followed by the
/// subjects' texts.
pub proof fn lemma_epub_creators_and_subjects(cs: Seq<XmlNodeV>, m0: MetadataV, cover0: Option<Seq<char>>)
    ensures
        meta_fold(cs, m0, cover0).authors == creators(cs),
        meta_fold(cs, m0, cover0).meta.genres == m0.genres + subjects(cs),
    decreases cs.len(),
{
    reveal(Seq::filter);
    reveal_strlit("title");
    reveal_strlit("creator");
    reveal_strlit("subject");
    if cs.len() > 0 {
        lemma_epub_creators_and_subjects(cs.drop_last(), m0, cover0);
        let c = cs.last();
        assert(creators(cs) =~= if is_creator(c) {
            creators(cs.drop_last()).push(trimmed(node_text(c)->0))
        } else {
            creators(cs.drop_last())
        });
        assert(subjects(cs) =~= if is_subject(c) {
            subjects(cs.drop_last()).push(trimmed(node_text(c)->0))
        } else {
            subjects(cs.drop_last())
        });
        if is_creator(c) {
            assert(local_name(c) != "title"@) by {
                assert("creator"@.len() != "title"@.len());
            }
        }
        if is_subject(c) {
            assert(local_name(c) != "title"@ && local_name(c) != "creator"@) by {
                assert("subject"@[0] != "title"@[0]);
                assert("subject"@[0] != "creator"@[0]);
            }
            assert(m0.genres + subjects(cs) =~= (m0.genres + subjects(cs.drop_last())).push(trimmed(node_text(c)->0)));
        }
    } else {
        assert(creators(cs) =~= Seq::<Seq<char>>::empty());
        assert(subjects(cs) =~= Seq::<Seq<char>>::empty());
        assert(m0.genres + subjects(cs) =~= m0.genres);
    }
}

/// What the package document says: metadata, the cover's id, the
/// manifest (id, path inside the archive, media type), the NCX's id and
/// the spine (ids in reading order).
pub struct OpfState {
    pub meta: MetadataV,
    pub cover_id: Option<Seq<char>>,
    pub manifest: Seq<(Seq<char>, Seq<char>, Seq<char>)>,
    pub ncx_id: Option<Seq<char>>,
    pub spine: Seq<Seq<char>>,
}

/// The path of a manifest entry: its `href` under the package's directory.
pub open spec fn full_href(dir: Seq<char>, href: Seq<char>) -> Seq<char> {
    if dir.len() == 0 {
        href
    } else {
        dir + "/"@ + href
    }
}

/// One child of the `manifest` element.
pub open spec fn manifest_step(st: OpfState, c: XmlNodeV, dir: Seq<char>) -> OpfState {
    if is_element(c) && local_name(c) == "item"@ && attr(c, "id"@) is Some && attr(c, "href"@) is Some {
        let id = attr(c, "id"@)->0;
        let media = match attr(c, "media-type"@) {
            Some(m) => m,
            None => Seq::empty(),
        };
        OpfState {
            manifest: st.manifest.push((id, full_href(dir, attr(c, "href"@)->0), media)),
            ncx_id: if media == "application/x-dtbncx+xml"@ { Some(id) } else { st.ncx_id },
            ..st
        }
    } else {
        st
    }
}

pub open spec fn manifest_fold(st: OpfState, cs: Seq<XmlNodeV>, dir: Seq<char>) -> OpfState
    decreases cs.len(),
{
    if cs.len() == 0 {
        st
    } else {
        manifest_step(manifest_fold(st, cs.drop_last(), dir), cs.last(), dir)
    }
}

/// The `idref`s of the `itemref` elements among `cs`.
pub open spec fn spine_refs(cs: Seq<XmlNodeV>) -> Seq<Seq<char>>
    decreases cs.len(),
{
    if cs.len() == 0 {
        Seq::empty()
    } else {
        let c = cs.last();
        if is_element(c) && local_name(c) == "itemref"@ && attr(c, "idref"@) is Some {
            spine_refs(cs.drop_last()).push(attr(c, "idref"@)->0)
        } else {
            spine_refs(cs.drop_last())
        }
    }
}

/// An `itemref` element naming a manifest item.
pub open spec fn is_spine_itemref(c: XmlNodeV) -> bool {
    is_element(c) && local_name(c) == "itemref"@ && attr(c, "idref"@) is Some
}

/// The `idref`s of the `itemref` elements among `cs`, in document order.
pub open spec fn itemref_ids(cs: Seq<XmlNodeV>) -> Seq<Seq<char>> {
    cs.filter(|c: XmlNodeV| is_spine_itemref(c)).map_values(|c: XmlNodeV| attr(c, "idref"@)->0)
}

/// The spine lists its items in document order: the `k`-th `itemref`
/// with an `idref` gives the `k`-th spine entry, and nothing else does.
pub proof fn lemma_spine_in_document_order(cs: Seq<XmlNodeV>)
    ensures
        spine_refs(cs) == itemref_ids(cs),
    decreases cs.len(),
{
    reveal(Seq::filter);
    if cs.len() > 0 {
        lemma_spine_in_document_order(cs.drop_last());
        assert(itemref_ids(cs) =~= if is_spine_itemref(cs.last()) {
            itemref_ids(cs.drop_last()).push(attr(cs.last(), "idref"@)->0)
        } else {
            itemref_ids(cs.drop_last())
        });
    } else {
        assert(itemref_ids(cs) =~= Seq::<Seq<char>>::empty());
    }
}

/// The authors found replace those of the metadata.
pub open spec fn with_authors(m: MetaState) -> MetadataV {
    if m.authors.len() > 0 {
        MetadataV { authors: m.authors, ..m.meta }
    } else {
        m.meta
    }
}

/// One child of the package element.
pub open spec fn opf_step(st: OpfState, c: XmlNodeV, dir: Seq<char>) -> OpfState {
    if !is_element(c) {
        st
    } else if local_name(c) == "metadata"@ {
        let m = meta_fold(children_of(c), st.meta, st.cover_id);
        OpfState { meta: with_authors(m), cover_id: m.cover, ..st }
    } else if local_name(c) == "manifest"@ {
        manifest_fold(st, children_of(c), dir)
    } else if local_name(c) == "spine"@ {
        OpfState {
            ncx_id: match attr(c, "toc"@) {
                Some(t) => Some(t),
                None => st.ncx_id,
            },
            spine: st.spine + spine_refs(children_of(c)),
            ..st
        }
    } else {
        st
    }
}

pub open spec fn opf_fold(st: OpfState, cs: Seq<XmlNodeV>, dir: Seq<char>) -> OpfState
    decreases cs.len(),
{
    if cs.len() == 0 {
        st
    } else {
        opf_step(opf_fold(st, cs.drop_last(), dir), cs.last(), dir)
    }
}

/// The metadata of an EPUB book before its package document is read.
pub open spec fn epub_default_metadata() -> MetadataV {
    MetadataV {
        title: "Unknown Title"@,
        authors: seq!["Unknown Author"@],
        series_name: None,
        series_index: None,
        genres: Seq::empty(),
        annotation: None,
        cover_image_key: None,
        format: BookFormat::Epub,
    }
}

pub open spec fn opf_start() -> OpfState {
    OpfState {
        meta: epub_default_metadata(),
        cover_id: None,
        manifest: Seq::empty(),
        ncx_id: None,
        spine: Seq::empty(),
    }
}

/// The path and media type of the manifest entry `id` (the last entry
/// with that id).
pub open spec fn manifest_get(m: Seq<(Seq<char>, Seq<char>, Seq<char>)>, id: Seq<char>) -> Option<(Seq<char>, Seq<char>)>
    decreases m.len(),
{
    if m.len() == 0 {
        None
    } else if m.last().0 == id {
        Some((m.last().1, m.last().2))
    } else {
        manifest_get(m.drop_last(), id)
    }
}

/// The directory of the package document: its path before the last `/`.
pub open spec fn opf_dir(path: Seq<char>) -> Seq<char>
    decreases path.len(),
{
    if path.len() == 0 {
        Seq::empty()
    } else if path.last() == '/' {
        path.drop_last()
    } else {
        opf_dir(path.drop_last())
    }
}


/// The package document as read.
pub struct Package {
    pub metadata: Metadata,
    pub cover_id: Option<String>,
    pub manifest: Vec<(String, String, String)>,
    pub ncx_id: Option<String>,
    pub spine: Vec<String>,
}

pub open spec fn manifest_views(s: Seq<(String, String, String)>) -> Seq<(Seq<char>, Seq<char>, Seq<char>)> {
    s.map_values(|e: (String, String, String)| (e.0@, e.1@, e.2@))
}

impl View for Package {
    type V = OpfState;

    open spec fn view(&self) -> OpfState {
        OpfState {
            meta: self.metadata@,
            cover_id: opt_view(self.cover_id),
            manifest: manifest_views(self.manifest@),
            ncx_id: opt_view(self.ncx_id),
            spine: str_views(self.spine@),
        }
    }
}

fn copy_str(s: &String) -> (r: String)
    ensures
        r@ == s@,
{
    owned(s.as_str())
}

fn trimmed_string(s: &String) -> (r: String)
    ensures
        r@ == trimmed(s@),
{
    let t = trim_chars(s.as_str());
    string_from_chars(t.as_slice())
}

fn read_metadata(cs: &Vec<XmlNode>, pkg: &mut Package)
    ensures
        final(pkg)@ == (OpfState {
            meta: with_authors(meta_fold(xviews(cs@), old(pkg)@.meta, old(pkg)@.cover_id)),
            cover_id: meta_fold(xviews(cs@), old(pkg)@.meta, old(pkg)@.cover_id).cover,
            ..old(pkg)@
        }),
{
    let ghost m0 = pkg@.meta;
    let ghost c0 = pkg@.cover_id;
    let ghost p0 = pkg@;
    let mut authors: Vec<String> = Vec::new();
    let mut i: usize = 0;
    proof {
        lemma_xviews_len(cs@);
        assert(xviews(cs@.take(0)) =~= Seq::<XmlNodeV>::empty());
        assert(str_views(authors@) =~= Seq::<Seq<char>>::empty());
    }
    while i < cs.len()
        invariant
            i <= cs@.len(),
            pkg@.meta == meta_fold(xviews(cs@.take(i as int)), m0, c0).meta,
            pkg@.cover_id == meta_fold(xviews(cs@.take(i as int)), m0, c0).cover,
            str_views(authors@) == meta_fold(xviews(cs@.take(i as int)), m0, c0).authors,
            pkg@ == (OpfState { meta: pkg@.meta, cover_id: pkg@.cover_id, ..p0 }),
        decreases cs.len() - i,
    {
        proof {
            lemma_xviews_take(cs@, i as int);
            let xs = xviews(cs@.take(i as int));
            let x = xview(cs@[i as int]);
            assert(xs.push(x).drop_last() =~= xs);
            assert(xs.push(x).last() == x);
        }
        let c = &cs[i];
        match c {
            XmlNode::Element { name, .. } => {
                let nm = name.as_str();
                if str_eq(nm, "title") {
                    match node_text_exec(c) {
                        Some(t) => {
                            pkg.metadata.title = trimmed_string(&t);
                        },
                        None => {},
                    }
                } else if str_eq(nm, "creator") {
                    match node_text_exec(c) {
                        Some(a) => {
                            let ghost prev = str_views(authors@);
                            authors.push(trimmed_string(&a));
                            assert(str_views(authors@) =~= prev.push(trimmed(a@)));
                        },
                        None => {},
                    }
                } else if str_eq(nm, "subject") {
                    match node_text_exec(c) {
                        Some(g) => {
                            let ghost prev = str_views(pkg.metadata.genres@);
                            pkg.metadata.genres.push(trimmed_string(&g));
                            assert(str_views(pkg.metadata.genres@) =~= prev.push(trimmed(g@)));
                        },
                        None => {},
                    }
                } else if str_eq(nm, "description") {
                    match node_text_exec(c) {
                        Some(d) => {
                            pkg.metadata.annotation = Some(trimmed_string(&d));
                        },
                        None => {},
                    }
                } else if str_eq(nm, "meta") {
                    let is_cover = match attr_exec(c, "name") {
                        Some(v) => str_eq(v.as_str(), "cover"),
                        None => false,
                    };
                    if is_cover {
                        match attr_exec(c, "content") {
                            Some(x) => {
                                pkg.cover_id = Some(x);
                            },
                            None => {},
                        }
                    }
                }
            },
            _ => {},
        }
        i = i + 1;
    }
    assert(cs@.take(cs@.len() as int) =~= cs@);
    if authors.len() > 0 {
        pkg.metadata.authors = authors;
    }
}

fn full_href_exec(dir: &str, href: &String) -> (r: String)
    ensures
        r@ == full_href(dir@, href@),
{
    if dir.unicode_len() == 0 {
        copy_str(href)
    } else {
        let mut r = owned(dir);
        r.append("/");
        r.append(href.as_str());
        r
    }
}

fn read_manifest(cs: &Vec<XmlNode>, dir: &str, pkg: &mut Package)
    ensures
        final(pkg)@ == manifest_fold(old(pkg)@, xviews(cs@), dir@),
{
    let ghost p0 = pkg@;
    let mut i: usize = 0;
    proof {
        lemma_xviews_len(cs@);
        assert(xviews(cs@.take(0)) =~= Seq::<XmlNodeV>::empty());
    }
    while i < cs.len()
        invariant
            i <= cs@.len(),
            pkg@ == manifest_fold(p0, xviews(cs@.take(i as int)), dir@),
        decreases cs.len() - i,
    {
        proof {
            lemma_xviews_take(cs@, i as int);
            let xs = xviews(cs@.take(i as int));
            let x = xview(cs@[i as int]);
            assert(xs.push(x).drop_last() =~= xs);
            assert(xs.push(x).last() == x);
        }
        let c = &cs[i];
        let is_item = match c {
            XmlNode::Element { name, .. } => str_eq(name.as_str(), "item"),
            _ => false,
        };
        if is_item {
            match (attr_exec(c, "id"), attr_exec(c, "href")) {
                (Some(id), Some(href)) => {
                    let media = match attr_exec(c, "media-type") {
                        Some(m) => m,
                        None => String::new(),
                    };
                    let full = full_href_exec(dir, &href);
                    let is_ncx = str_eq(media.as_str(), "application/x-dtbncx+xml");
                    if is_ncx {
                        pkg.ncx_id = Some(copy_str(&id));
                    }
                    let ghost prev = manifest_views(pkg.manifest@);
                    pkg.manifest.push((id, full, media));
                    assert(manifest_views(pkg.manifest@) =~= prev.push((pkg.manifest@.last().0@, pkg.manifest@.last().1@, pkg.manifest@.last().2@)));
                },
                _ => {},
            }
        }
        i = i + 1;
    }
    assert(cs@.take(cs@.len() as int) =~= cs@);
}

fn read_spine(cs: &Vec<XmlNode>, pkg: &mut Package)
    ensures
        final(pkg)@ == (OpfState { spine: old(pkg)@.spine + spine_refs(xviews(cs@)), ..old(pkg)@ }),
{
    let ghost p0 = pkg@;
    let mut i: usize = 0;
    proof {
        lemma_xviews_len(cs@);
        assert(xviews(cs@.take(0)) =~= Seq::<XmlNodeV>::empty());
        assert(p0.spine + Seq::<Seq<char>>::empty() =~= p0.spine);
    }
    while i < cs.len()
        invariant
            i <= cs@.len(),
            pkg@ == (OpfState { spine: p0.spine + spine_refs(xviews(cs@.take(i as int))), ..p0 }),
        decreases cs.len() - i,
    {
        proof {
            lemma_xviews_take(cs@, i as int);
            let xs = xviews(cs@.take(i as int));
            let x = xview(cs@[i as int]);
            assert(xs.push(x).drop_last() =~= xs);
            assert(xs.push(x).last() == x);
        }
        let c = &cs[i];
        let is_ref = match c {
            XmlNode::Element { name, .. } => str_eq(name.as_str(), "itemref"),
            _ => false,
        };
        if is_ref {
            match attr_exec(c, "idref") {
                Some(idref) => {
                    let ghost prev = str_views(pkg.spine@);
                    pkg.spine.push(idref);
                    assert(str_views(pkg.spine@) =~= prev.push(pkg.spine@.last()@));
                },
                None => {},
            }
        }
        proof {
            let st = spine_refs(xviews(cs@.take(i + 1)));
            assert(pkg@.spine =~= p0.spine + st);
        }
        i = i + 1;
    }
    assert(cs@.take(cs@.len() as int) =~= cs@);
}

/// Reads the children of the package element (see `opf_fold`).
pub fn read_package(root: &XmlNode, dir: &str) -> (r: Package)
    ensures
        r@ == opf_fold(opf_start(), children_of(xview(*root)), dir@),
{
    let mut metadata = Metadata::default();
    metadata.format = BookFormat::Epub;
    let mut pkg = Package { metadata, cover_id: None, manifest: Vec::new(), ncx_id: None, spine: Vec::new() };
    assert(pkg@ == opf_start()) by {
        assert(str_views(pkg.metadata.authors@) =~= seq!["Unknown Author"@]);
        assert(str_views(pkg.metadata.genres@) =~= Seq::<Seq<char>>::empty());
        assert(manifest_views(pkg.manifest@) =~= Seq::<(Seq<char>, Seq<char>, Seq<char>)>::empty());
        assert(str_views(pkg.spine@) =~= Seq::<Seq<char>>::empty());
    }
    match root {
        XmlNode::Element { children, .. } => {
            let mut i: usize = 0;
            proof {
                lemma_xviews_len(children@);
                assert(xviews(children@.take(0)) =~= Seq::<XmlNodeV>::empty());
            }
            while i < children.len()
                invariant
                    i <= children@.len(),
                    pkg@ == opf_fold(opf_start(), xviews(children@.take(i as int)), dir@),
                decreases children.len() - i,
            {
                proof {
                    lemma_xviews_take(children@, i as int);
                    let xs = xviews(children@.take(i as int));
                    let x = xview(children@[i as int]);
                    assert(xs.push(x).drop_last() =~= xs);
                    assert(xs.push(x).last() == x);
                }
                let c = &children[i];
                match c {
                    XmlNode::Element { name, children: cc, .. } => {
                        let nm = name.as_str();
                        if str_eq(nm, "metadata") {
                            read_metadata(cc, &mut pkg);
                        } else if str_eq(nm, "manifest") {
                            read_manifest(cc, dir, &mut pkg);
                        } else if str_eq(nm, "spine") {
                            match attr_exec(c, "toc") {
                                Some(t) => {
                                    pkg.ncx_id = Some(t);
                                },
                                None => {},
                            }
                            read_spine(cc, &mut pkg);
                        }
                    },
                    _ => {},
                }
                i = i + 1;
            }
            assert(children@.take(children@.len() as int) =~= children@);
        },
        _ => {},
    }
    pkg
}


// ---------------------------------------------------------------------
// Chapters, images and the book

/// An XHTML chapter without its `<!DOCTYPE ...>` declaration.
pub open spec fn strip_doctype(t: Seq<char>) -> Seq<char> {
    match find_from(t, "<!DOCTYPE"@, 0) {
        Some(i) => match find_from(t.skip(i), ">"@, 0) {
            Some(e) => t.take(i) + t.skip(i + e + 1),
            None => t,
        },
        None => t,
    }
}

/// The blocks of an XHTML chapter: those of its `body` (or, without one,
/// of its root element); a chapter that does not parse gives none.
pub open spec fn chapter_blocks(t: Seq<char>) -> Seq<BlockV> {
    match xml_records(strip_doctype(t)) {
        Ok(recs) => if recs.len() > 0 {
            match root_element(document_tree(recs)) {
                Some(root) => {
                    let body = match first_where(desc_list(root), wanted(Wanted::Body)) {
                        Some(b) => b,
                        None => root,
                    };
                    html_blocks(children_of(body))
                },
                None => Seq::empty(),
            }
        } else {
            Seq::empty()
        },
        Err(_) => Seq::empty(),
    }
}

/// The blocks of the spine item `id`: its chapter read and decoded, or
/// nothing when any of that fails.
pub open spec fn chapter_of(a: Seq<u8>, m: Seq<(Seq<char>, Seq<char>, Seq<char>)>, id: Seq<char>) -> Seq<BlockV> {
    match manifest_get(m, id) {
        Some(e) => match member_bytes(a, e.0) {
            Some(b) => match decoded_text(b) {
                Ok(t) => chapter_blocks(t),
                Err(_) => Seq::empty(),
            },
            None => Seq::empty(),
        },
        None => Seq::empty(),
    }
}

/// The blocks of the spine's chapters, in reading order.
pub open spec fn spine_blocks(a: Seq<u8>, m: Seq<(Seq<char>, Seq<char>, Seq<char>)>, spine: Seq<Seq<char>>) -> Seq<BlockV>
    decreases spine.len(),
{
    if spine.len() == 0 {
        Seq::empty()
    } else {
        spine_blocks(a, m, spine.drop_last()) + chapter_of(a, m, spine.last())
    }
}

/// A later manifest entry has the same id as entry `i`.
pub open spec fn superseded(m: Seq<(Seq<char>, Seq<char>, Seq<char>)>, i: int) -> bool {
    exists|j: int| i < j < m.len() && #[trigger] m[j].0 == m[i].0
}

/// The image stored under path `k`: an image of the manifest (entries
/// before `n`, an id's last entry counting) that the archive holds.
pub open spec fn epub_resource(a: Seq<u8>, m: Seq<(Seq<char>, Seq<char>, Seq<char>)>, n: int, k: Seq<char>) -> Option<Seq<u8>>
    decreases n,
{
    if n <= 0 {
        None
    } else {
        let e = m[n - 1];
        if e.1 == k && !superseded(m, n - 1) && starts_with(e.2, "image/"@) && member_bytes(a, e.1) is Some {
            member_bytes(a, e.1)
        } else {
            epub_resource(a, m, n - 1, k)
        }
    }
}

/// The metadata of the book: that of the package, with the cover's path.
pub open spec fn final_metadata(st: OpfState) -> MetadataV {
    match st.cover_id {
        Some(cid) => match manifest_get(st.manifest, cid) {
            Some(e) => MetadataV { cover_image_key: Some(e.0), ..st.meta },
            None => st.meta,
        },
        None => st.meta,
    }
}

/// The path of the NCX document.
pub open spec fn ncx_href(st: OpfState) -> Option<Seq<char>> {
    match st.ncx_id {
        Some(id) => match manifest_get(st.manifest, id) {
            Some(e) => Some(e.0),
            None => None,
        },
        None => None,
    }
}

/// The table of contents read from the NCX document: `Err(Some(m))` for
/// a parse error with message `m`, `Err(None)` for another failure.
pub open spec fn toc_outcome(a: Seq<u8>, st: OpfState) -> core::result::Result<Seq<TocV>, Option<Seq<char>>> {
    match ncx_href(st) {
        None => Ok(Seq::empty()),
        Some(h) => match member_bytes(a, h) {
            None => Err(Some("File '"@ + h + "' not found in zip archive"@)),
            Some(b) => match decoded_text(b) {
                Err(_) => Err(None),
                Ok(t) => match xml_records(t) {
                    Err(m) => Err(Some("NCX XML error: "@ + m)),
                    Ok(recs) => if recs.len() == 0 {
                        Err(None)
                    } else {
                        Ok(nav_entries(desc_list(document_tree(recs))))
                    },
                },
            },
        },
    }
}

fn manifest_get_exec(m: &Vec<(String, String, String)>, id: &str) -> (r: Option<(String, String)>)
    ensures
        match manifest_get(manifest_views(m@), id@) {
            Some(e) => r matches Some(x) && x.0@ == e.0 && x.1@ == e.1,
            None => r is None,
        },
{
    let ghost mv = manifest_views(m@);
    let mut i = m.len();
    assert(mv.take(i as int) =~= mv);
    while i > 0
        invariant
            i <= m@.len(),
            mv == manifest_views(m@),
            manifest_get(mv, id@) == manifest_get(mv.take(i as int), id@),
        decreases i,
    {
        assert(mv.take(i as int).last() == mv[i - 1]);
        assert(mv.take(i as int).drop_last() =~= mv.take(i - 1));
        if str_eq(m[i - 1].0.as_str(), id) {
            return Some((copy_str(&m[i - 1].1), copy_str(&m[i - 1].2)));
        }
        i = i - 1;
    }
    None
}

fn opf_dir_exec(path: &str) -> (r: String)
    ensures
        r@ == opf_dir(path@),
{
    let cs = chars_of(path);
    let mut n = cs.len();
    assert(cs@.take(n as int) =~= cs@);
    while n > 0 && cs[n - 1] != '/'
        invariant
            n <= cs@.len(),
            opf_dir(cs@) == opf_dir(cs@.take(n as int)),
        decreases n,
    {
        assert(cs@.take(n as int).drop_last() =~= cs@.take(n - 1));
        n = n - 1;
    }
    if n == 0 {
        assert(cs@.take(0) =~= Seq::<char>::empty());
        String::new()
    } else {
        assert(cs@.take(n as int).drop_last() =~= cs@.take(n - 1));
        let d = slice_range(&cs, 0, n - 1);
        assert(cs@.subrange(0, n - 1) =~= cs@.take(n - 1));
        string_from_chars(d.as_slice())
    }
}

fn strip_doctype_exec(t: &str) -> (r: String)
    ensures
        r@ == strip_doctype(t@),
{
    proof {
        reveal_strlit("<!DOCTYPE");
        reveal_strlit(">");
    }
    let cs = chars_of(t);
    let open = chars_of("<!DOCTYPE");
    let close = chars_of(">");
    match find_exec(&cs, &open, 0) {
        Some(i) => {
            let rest = slice_from(&cs, i);
            match find_exec(&rest, &close, 0) {
                Some(e) => {
                    let n = cs.len();
                    assert(rest@.len() == n - i);
                    let head = slice_range(&cs, 0, i);
                    let tail = slice_from(&cs, i + e + 1);
                    assert(cs@.subrange(0, i as int) =~= cs@.take(i as int));
                    let mut r = string_from_chars(head.as_slice());
                    let tl = string_from_chars(tail.as_slice());
                    r.append(tl.as_str());
                    r
                },
                None => owned(t),
            }
        },
        None => owned(t),
    }
}

/// Appends the blocks of an XHTML chapter (see `chapter_blocks`).
fn read_chapter(t: &str, content: &mut Vec<Block>)
    ensures
        bviews(final(content)@) == bviews(old(content)@) + chapter_blocks(t@),
{
    let clean = strip_doctype_exec(t);
    let ghost c0 = bviews(content@);
    match parse_xml(clean.as_str()) {
        Ok(doc) => match root_element_exec(&doc) {
            Some(root) => {
                let body = match find_first(root, Wanted::Body) {
                    Some(b) => b,
                    None => root,
                };
                match body {
                    XmlNode::Element { children, .. } => html_blocks_into(children, content),
                    _ => {
                        assert(crate::formats::xml::children_of(xview(*body)) =~= Seq::<XmlNodeV>::empty());
                        assert(bviews(content@) =~= c0 + html_blocks(Seq::<XmlNodeV>::empty()));
                    },
                }
            },
            None => {
                assert(bviews(content@) =~= c0 + Seq::<BlockV>::empty());
            },
        },
        Err(_) => {
            assert(bviews(content@) =~= c0 + Seq::<BlockV>::empty());
        },
    }
}


proof fn lemma_first_where_holds(ds: Seq<XmlNodeV>, p: spec_fn(XmlNodeV) -> bool)
    ensures
        first_where(ds, p) matches Some(x) ==> p(x),
    decreases ds.len(),
{
    if ds.len() > 0 && !p(ds[0]) {
        lemma_first_where_holds(ds.skip(1), p);
    }
}

fn superseded_exec(m: &Vec<(String, String, String)>, i: usize) -> (r: bool)
    requires
        i < m@.len(),
    ensures
        r == superseded(manifest_views(m@), i as int),
{
    let ghost mv = manifest_views(m@);
    let n = m.len();
    let mut j: usize = i + 1;
    while j < m.len()
        invariant
            i < j <= m@.len(),
            mv == manifest_views(m@),
            mv.len() == m@.len(),
            forall|l: int| i < l < j ==> #[trigger] mv[l].0 != mv[i as int].0,
        decreases m.len() - j,
    {
        if str_eq(m[j].0.as_str(), m[i].0.as_str()) {
            assert(mv[j as int].0 == mv[i as int].0);
            return true;
        }
        j = j + 1;
    }
    false
}

/// The images of the manifest that the archive holds, by path (see
/// `epub_resource`).
fn read_resources(a: &[u8], m: &Vec<(String, String, String)>) -> (r: StringMap<Vec<u8>>)
    ensures
        forall|k: Seq<char>| #[trigger] opt_bytes(r.lookup(k)) == epub_resource(a@, manifest_views(m@), m@.len() as int, k),
{
    let ghost mv = manifest_views(m@);
    let mut res: StringMap<Vec<u8>> = StringMap::new();
    let mut i: usize = 0;
    while i < m.len()
        invariant
            i <= m@.len(),
            mv == manifest_views(m@),
            mv.len() == m@.len(),
            forall|k: Seq<char>| #[trigger] opt_bytes(res.lookup(k)) == epub_resource(a@, mv, i as int, k),
        decreases m.len() - i,
    {
        let ghost before = res;
        let ghost e = mv[i as int];
        let mut stored = false;
        let media = chars_of(m[i].2.as_str());
        if !superseded_exec(m, i) && starts_with_exec(&media, "image/") {
            match read_member(a, m[i].1.as_str()) {
                Some(b) => {
                    res.insert(copy_str(&m[i].1), b);
                    stored = true;
                },
                None => {},
            }
        }
        assert forall|k: Seq<char>| #[trigger] opt_bytes(res.lookup(k)) == epub_resource(a@, mv, i + 1, k) by {
            assert(epub_resource(a@, mv, i + 1, k) == (if e.1 == k && !superseded(mv, i as int) && starts_with(e.2, "image/"@)
                && member_bytes(a@, e.1) is Some {
                member_bytes(a@, e.1)
            } else {
                epub_resource(a@, mv, i as int, k)
            }));
            if k != e.1 {
                assert(opt_bytes(before.lookup(k)) == epub_resource(a@, mv, i as int, k));
            }
        }
        i = i + 1;
    }
    res
}

/// The error `e` is a parse error, with message `m` where one is given.
pub open spec fn error_is(e: AppError, m: Option<Seq<char>>) -> bool {
    match m {
        Some(x) => e matches AppError::Parse(msg) && msg@ == x,
        None => e is Parse,
    }
}

/// The path of the package document: the `full-path` of the container's
/// first `rootfile`; `Err(Some(m))` for an error with message `m`,
/// `Err(None)` for another parse error.
pub open spec fn container_outcome(a: Seq<u8>) -> core::result::Result<Seq<char>, Option<Seq<char>>> {
    match member_bytes(a, "META-INF/container.xml"@) {
        None => Err(Some("File '"@ + "META-INF/container.xml"@ + "' not found in zip archive"@)),
        Some(b) => match decoded_text(b) {
            Err(_) => Err(None),
            Ok(t) => match xml_records(t) {
                Err(m) => Err(Some("Invalid container.xml: "@ + m)),
                Ok(recs) => if recs.len() == 0 {
                    Err(None)
                } else {
                    match first_where(desc_list(document_tree(recs)), wanted(Wanted::Rootfile)) {
                        Some(d) => Ok(attr(d, "full-path"@)->0),
                        None => Err(Some("Could not find full-path in container.xml"@)),
                    }
                },
            },
        },
    }
}

/// What the package document at `p` says (see `opf_fold`), or the error.
pub open spec fn package_outcome(a: Seq<u8>, p: Seq<char>) -> core::result::Result<OpfState, Option<Seq<char>>> {
    match member_bytes(a, p) {
        None => Err(Some("File '"@ + p + "' not found in zip archive"@)),
        Some(b) => match decoded_text(b) {
            Err(_) => Err(None),
            Ok(t) => match xml_records(t) {
                Err(m) => Err(Some("Failed to parse OPF XML: "@ + m)),
                Ok(recs) => if recs.len() == 0 {
                    Err(None)
                } else {
                    match root_element(document_tree(recs)) {
                        Some(root) => Ok(opf_fold(opf_start(), children_of(root), opf_dir(p))),
                        None => Err(None),
                    }
                },
            },
        },
    }
}

fn read_container(a: &[u8]) -> (r: core::result::Result<String, AppError>)
    ensures
        match container_outcome(a@) {
            Ok(p) => r matches Ok(s) && s@ == p,
            Err(m) => r matches Err(e) && error_is(e, m),
        },
{
    let bytes = match read_member(a, "META-INF/container.xml") {
        Some(b) => b,
        None => {
            return Err(not_found("META-INF/container.xml"));
        },
    };
    let text = match decode_bytes(bytes.as_slice()) {
        Ok(t) => t,
        Err(e) => {
            return Err(e);
        },
    };
    match parse_xml(text.as_str()) {
        Ok(doc) => {
            proof {
                lemma_first_where_holds(desc_list(xview(doc)), wanted(Wanted::Rootfile));
            }
            match find_first(&doc, Wanted::Rootfile) {
                Some(rf) => match attr_exec(rf, "full-path") {
                    Some(p) => Ok(p),
                    None => Err(AppError::Parse(owned("Could not find full-path in container.xml"))),
                },
                None => Err(AppError::Parse(owned("Could not find full-path in container.xml"))),
            }
        },
        Err(m) => {
            let mut msg = owned("Invalid container.xml: ");
            msg.append(m.as_str());
            Err(AppError::Parse(msg))
        },
    }
}

fn read_opf(a: &[u8], p: &str) -> (r: core::result::Result<Package, AppError>)
    ensures
        match package_outcome(a@, p@) {
            Ok(st) => r matches Ok(pkg) && pkg@ == st,
            Err(m) => r matches Err(e) && error_is(e, m),
        },
{
    let bytes = match read_member(a, p) {
        Some(b) => b,
        None => {
            return Err(not_found(p));
        },
    };
    let text = match decode_bytes(bytes.as_slice()) {
        Ok(t) => t,
        Err(e) => {
            return Err(e);
        },
    };
    match parse_xml(text.as_str()) {
        Ok(doc) => match root_element_exec(&doc) {
            Some(root) => {
                let dir = opf_dir_exec(p);
                Ok(read_package(root, dir.as_str()))
            },
            None => Err(AppError::Parse(owned("Failed to parse OPF XML: the document has no root element"))),
        },
        Err(m) => {
            let mut msg = owned("Failed to parse OPF XML: ");
            msg.append(m.as_str());
            Err(AppError::Parse(msg))
        },
    }
}

fn read_toc(a: &[u8], pkg: &Package) -> (r: core::result::Result<Vec<TocItem>, AppError>)
    ensures
        match toc_outcome(a@, pkg@) {
            Ok(t) => r matches Ok(v) && tviews(v@) == t,
            Err(m) => r matches Err(e) && error_is(e, m),
        },
{
    let empty: Vec<TocItem> = Vec::new();
    assert(tviews(empty@) =~= Seq::<TocV>::empty());
    let href = match &pkg.ncx_id {
        Some(id) => match manifest_get_exec(&pkg.manifest, id.as_str()) {
            Some(e) => e.0,
            None => {
                return Ok(empty);
            },
        },
        None => {
            return Ok(empty);
        },
    };
    let bytes = match read_member(a, href.as_str()) {
        Some(b) => b,
        None => {
            return Err(not_found(href.as_str()));
        },
    };
    let text = match decode_bytes(bytes.as_slice()) {
        Ok(t) => t,
        Err(e) => {
            return Err(e);
        },
    };
    match parse_xml(text.as_str()) {
        Ok(doc) => {
            let mut toc = empty;
            collect_nav(&doc, &mut toc);
            assert(tviews(toc@) =~= nav_entries(desc_list(xview(doc))));
            Ok(toc)
        },
        Err(m) => {
            let mut msg = owned("NCX XML error: ");
            msg.append(m.as_str());
            Err(AppError::Parse(msg))
        },
    }
}

/// The content of a spine is its chapters' blocks one after another:
/// reading two parts of a spine gives the blocks of the first part, then
/// those of the second.
pub proof fn lemma_spine_blocks_concat(
    a: Seq<u8>,
    m: Seq<(Seq<char>, Seq<char>, Seq<char>)>,
    s1: Seq<Seq<char>>,
    s2: Seq<Seq<char>>,
)
    ensures
        spine_blocks(a, m, s1 + s2) == spine_blocks(a, m, s1) + spine_blocks(a, m, s2),
    decreases s2.len(),
{
    if s2.len() == 0 {
        assert(s1 + s2 =~= s1);
        assert(spine_blocks(a, m, s1) + spine_blocks(a, m, s2) =~= spine_blocks(a, m, s1));
    } else {
        lemma_spine_blocks_concat(a, m, s1, s2.drop_last());
        assert((s1 + s2).drop_last() =~= s1 + s2.drop_last());
        assert((s1 + s2).last() == s2.last());
        assert(spine_blocks(a, m, s1 + s2) =~= spine_blocks(a, m, s1) + spine_blocks(a, m, s2));
    }
}

/// A one-item spine gives that item's chapter.
pub proof fn lemma_spine_blocks_single(a: Seq<u8>, m: Seq<(Seq<char>, Seq<char>, Seq<char>)>, id: Seq<char>)
    ensures
        spine_blocks(a, m, seq![id]) == chapter_of(a, m, id),
{
    assert(seq![id].drop_last() =~= Seq::<Seq<char>>::empty());
    assert(seq![id].last() == id);
    assert(spine_blocks(a, m, Seq::<Seq<char>>::empty()) == Seq::<BlockV>::empty());
    assert(Seq::<BlockV>::empty() + chapter_of(a, m, id) =~= chapter_of(a, m, id));
}

fn read_spine_content(a: &[u8], pkg: &Package) -> (r: Vec<Block>)
    ensures
        bviews(r@) == spine_blocks(a@, pkg@.manifest, pkg@.spine),
{
    let ghost m = pkg@.manifest;
    let ghost sp = pkg@.spine;
    let mut content: Vec<Block> = Vec::new();
    let mut i: usize = 0;
    assert(bviews(content@) =~= Seq::<BlockV>::empty());
    assert(sp.take(0) =~= Seq::<Seq<char>>::empty());
    while i < pkg.spine.len()
        invariant
            i <= pkg.spine@.len(),
            m == pkg@.manifest,
            sp == pkg@.spine,
            sp.len() == pkg.spine@.len(),
            bviews(content@) == spine_blocks(a@, m, sp.take(i as int)),
        decreases pkg.spine.len() - i,
    {
        proof {
            assert(sp.take(i + 1).drop_last() =~= sp.take(i as int));
            assert(sp.take(i + 1).last() == pkg.spine@[i as int]@);
        }
        match manifest_get_exec(&pkg.manifest, pkg.spine[i].as_str()) {
            Some(e) => match read_member(a, e.0.as_str()) {
                Some(b) => match decode_bytes(b.as_slice()) {
                    Ok(t) => read_chapter(t.as_str(), &mut content),
                    Err(_) => {},
                },
                None => {},
            },
            None => {},
        }
        assert(bviews(content@) =~= spine_blocks(a@, m, sp.take(i + 1)));
        i = i + 1;
    }
    assert(sp.take(sp.len() as int) =~= sp);
    content
}

/// The book made of an EPUB archive read from `path`: its metadata,
/// chapters in spine order, table of contents and images.
pub open spec fn epub_book_is(book: Book, a: Seq<u8>, st: OpfState, toc: Seq<TocV>, path: Seq<char>) -> bool {
    &&& book.metadata@ == final_metadata(st)
    &&& bviews(book.content@) == spine_blocks(a, st.manifest, st.spine)
    &&& tviews(book.toc@) == toc
    &&& forall|k: Seq<char>| #[trigger] opt_bytes(book.resources.lookup(k)) == epub_resource(a, st.manifest, st.manifest.len() as int, k)
    &&& book.file_path@ == path
    &&& book.id@ == sha1_hex_of(encode_utf8(path))
}

/// What parsing an EPUB archive gives: the archive is opened, the
/// container names the package document, the package document is read,
/// then the NCX table of contents; the first failure is the error.
pub open spec fn epub_outcome(a: Seq<u8>, path: Seq<char>, r: Result<Book>) -> bool {
    match zip_open_failure(a) {
        Some(m) => r matches Err(AppError::Parse(msg)) && msg@ == "Failed to open EPUB archive: "@ + m,
        None => match container_outcome(a) {
            Err(m) => r matches Err(e) && error_is(e, m),
            Ok(p) => match package_outcome(a, p) {
                Err(m) => r matches Err(e) && error_is(e, m),
                Ok(st) => match toc_outcome(a, st) {
                    Err(m) => r matches Err(e) && error_is(e, m),
                    Ok(toc) => r matches Ok(book) && epub_book_is(book, a, st, toc, path),
                },
            },
        },
    }
}

/// Parses an EPUB archive read from `file_path` (see `epub_outcome`).
pub fn parse_epub_bytes(archive: &[u8], file_path: &str) -> (r: Result<Book>)
    ensures
        epub_outcome(archive@, file_path@, r),
{
    match zip_open_error(archive) {
        Some(m) => {
            let mut msg = owned("Failed to open EPUB archive: ");
            msg.append(m.as_str());
            return Err(AppError::Parse(msg));
        },
        None => {},
    }
    let opf_path = match read_container(archive) {
        Ok(p) => p,
        Err(e) => {
            return Err(e);
        },
    };
    let pkg = match read_opf(archive, opf_path.as_str()) {
        Ok(p) => p,
        Err(e) => {
            return Err(e);
        },
    };
    let resources = read_resources(archive, &pkg.manifest);
    let toc = match read_toc(archive, &pkg) {
        Ok(t) => t,
        Err(e) => {
            return Err(e);
        },
    };
    let content = read_spine_content(archive, &pkg);
    let ghost st = pkg@;
    let Package { metadata, cover_id, manifest, ncx_id: _, spine: _ } = pkg;
    let mut metadata = metadata;
    match cover_id {
        Some(cid) => match manifest_get_exec(&manifest, cid.as_str()) {
            Some(e) => {
                metadata.cover_image_key = Some(e.0);
            },
            None => {},
        },
        None => {},
    }
    assert(metadata@ == final_metadata(st));
    let id = book_id_for_path(file_path);
    Ok(Book { id, file_path: owned(file_path), metadata, content, toc, resources })
}

} // verus!
