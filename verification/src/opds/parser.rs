//! Reading OPDS catalog feeds (Atom XML) and resolving their links.
use crate::config::keymap::str_eq;
use crate::formats::epub::{name_ci, name_ci_exec};
use crate::formats::fb2::{root_element, root_element_exec};
use crate::formats::xml::{
    attr, attr_exec, children_of, document_tree, is_element, lemma_xviews_index, lemma_xviews_len,
    lemma_xviews_take, local_name, node_text, node_text_exec, parse_xml, xml_records, xview, xviews, XmlNode,
    XmlNodeV,
};
use crate::opds::model::{
    entry_views, opt_str_view, OpdsEntry, OpdsEntryV, OpdsFeed, OpdsFeedV, OpdsLinkType, OpdsLinkV,
};
use crate::text::{
    chars_of, contains_exec, contains_seq, ends_with, ends_with_exec, owned, starts_with, starts_with_exec,
    string_from_chars, trim_chars, trimmed,
};
use crate::utils::{AppError, Result};
use vstd::prelude::*;

verus! {

// ---------------------------------------------------------------------
// URLs

/// `url::Url::parse` on `base`, then the parsed URL's `scheme()` and
/// `authority()`; `None` when `base` does not parse.
pub uninterp spec fn url_origin_parts(base: Seq<char>) -> Option<(Seq<char>, Seq<char>)>;

pub open spec fn pair_view(o: Option<(String, String)>) -> Option<(Seq<char>, Seq<char>)> {
    match o {
        Some(p) => Some((p.0@, p.1@)),
        None => None,
    }
}

/// `reqwest::Url::parse` (the `url` crate's `Url`), `scheme` and
/// `authority`: the contract names the result and claims nothing else.
#[verifier::external_body]
fn origin_parts(base: &str) -> (r: Option<(String, String)>)
    ensures
        pair_view(r) == url_origin_parts(base@),
{
    match reqwest::Url::parse(base) {
        Ok(u) => Some((u.scheme().to_string(), u.authority().to_string())),
        Err(_) => None,
    }
}

/// `s` without its trailing `/` signs.
pub open spec fn trim_end_slashes(s: Seq<char>) -> Seq<char>
    decreases s.len(),
{
    if s.len() > 0 && s.last() == '/' {
        trim_end_slashes(s.drop_last())
    } else {
        s
    }
}

/// An absolute path under the scheme and authority of a base URL: as
/// written when the base did not parse.
pub open spec fn url_with_origin(origin: Option<(Seq<char>, Seq<char>)>, href: Seq<char>) -> Seq<char> {
    match origin {
        Some(p) => p.0 + "://"@ + p.1 + href,
        None => href,
    }
}

/// A link of a feed fetched from `base`, made absolute: an `http(s)` URL
/// as it is, an absolute path under the base's scheme and authority, and
/// anything else under the base without its trailing slashes.
pub open spec fn resolved_url(base: Seq<char>, href: Seq<char>) -> Seq<char> {
    if starts_with(href, "http://"@) || starts_with(href, "https://"@) {
        href
    } else if starts_with(href, "/"@) {
        url_with_origin(url_origin_parts(base), href)
    } else {
        trim_end_slashes(base) + "/"@ + href
    }
}

/// Puts the absolute path `href` under a parsed base's scheme and
/// authority (see `url_with_origin`).
pub fn url_from_origin(origin: Option<(String, String)>, href: &str) -> (r: String)
    ensures
        r@ == url_with_origin(pair_view(origin), href@),
{
    match origin {
        Some((scheme, authority)) => {
            let mut r = scheme;
            r.append("://");
            r.append(authority.as_str());
            r.append(href);
            r
        },
        None => owned(href),
    }
}

fn trim_end_slashes_exec(s: &str) -> (r: String)
    ensures
        r@ == trim_end_slashes(s@),
{
    let cs = chars_of(s);
    let mut n = cs.len();
    assert(cs@.take(n as int) =~= cs@);
    while n > 0 && cs[n - 1] == '/'
        invariant
            n <= cs@.len(),
            trim_end_slashes(cs@) == trim_end_slashes(cs@.take(n as int)),
        decreases n,
    {
        assert(cs@.take(n as int).drop_last() =~= cs@.take(n - 1));
        n = n - 1;
    }
    let mut out: Vec<char> = Vec::new();
    let mut i: usize = 0;
    while i < n
        invariant
            i <= n <= cs@.len(),
            out@ == cs@.take(i as int),
        decreases n - i,
    {
        out.push(cs[i]);
        assert(cs@.take(i + 1) =~= cs@.take(i as int).push(cs@[i as int]));
        i = i + 1;
    }
    string_from_chars(out.as_slice())
}

/// Makes a feed's link absolute (see `resolved_url`).
pub fn resolve_url(base: &str, href: &str) -> (r: String)
    ensures
        r@ == resolved_url(base@, href@),
{
    let h = chars_of(href);
    if starts_with_exec(&h, "http://") || starts_with_exec(&h, "https://") {
        owned(href)
    } else if starts_with_exec(&h, "/") {
        url_from_origin(origin_parts(base), href)
    } else {
        let mut r = trim_end_slashes_exec(base);
        r.append("/");
        r.append(href);
        r
    }
}

// ---------------------------------------------------------------------
// Children of an element

/// The first element among `cs` named `a` or `b` (ASCII case aside).
pub open spec fn first_child_any(cs: Seq<XmlNodeV>, a: Seq<char>, b: Seq<char>) -> Option<XmlNodeV>
    decreases cs.len(),
{
    if cs.len() == 0 {
        None
    } else if is_element(cs[0]) && (name_ci(local_name(cs[0]), a) || name_ci(local_name(cs[0]), b)) {
        Some(cs[0])
    } else {
        first_child_any(cs.skip(1), a, b)
    }
}

/// The first element among `cs` named `a` (ASCII case aside).
pub open spec fn first_child_ci(cs: Seq<XmlNodeV>, a: Seq<char>) -> Option<XmlNodeV> {
    first_child_any(cs, a, a)
}

fn find_child<'a>(cs: &'a Vec<XmlNode>, a: &str, b: &str) -> (r: Option<&'a XmlNode>)
    ensures
        match first_child_any(xviews(cs@), a@, b@) {
            Some(x) => r matches Some(n) && xview(*n) == x,
            None => r is None,
        },
{
    let mut i: usize = 0;
    proof {
        lemma_xviews_len(cs@);
        assert(xviews(cs@).skip(0) =~= xviews(cs@));
    }
    while i < cs.len()
        invariant
            i <= cs@.len(),
            xviews(cs@).len() == cs@.len(),
            first_child_any(xviews(cs@), a@, b@) == first_child_any(xviews(cs@).skip(i as int), a@, b@),
        decreases cs.len() - i,
    {
        proof {
            lemma_xviews_index(cs@, i as int);
            assert(xviews(cs@).skip(i as int)[0] == xview(cs@[i as int]));
            assert(xviews(cs@).skip(i as int).skip(1) =~= xviews(cs@).skip(i + 1));
        }
        match &cs[i] {
            XmlNode::Element { name, .. } => {
                if name_ci_exec(name, a) || name_ci_exec(name, b) {
                    return Some(&cs[i]);
                }
            },
            _ => {},
        }
        i = i + 1;
    }
    None
}

/// The text of `n`, trimmed, if it has one.
pub open spec fn trimmed_text(n: Option<XmlNodeV>) -> Option<Seq<char>> {
    match n {
        Some(x) => match node_text(x) {
            Some(t) => Some(trimmed(t)),
            None => None,
        },
        None => None,
    }
}

fn trimmed_text_exec(n: Option<&XmlNode>) -> (r: Option<String>)
    ensures
        opt_str_view(r) == trimmed_text(match n {
            Some(x) => Some(xview(*x)),
            None => None,
        }),
{
    match n {
        Some(x) => match node_text_exec(x) {
            Some(t) => {
                let tt = trim_chars(t.as_str());
                Some(string_from_chars(tt.as_slice()))
            },
            None => None,
        },
        None => None,
    }
}

/// The value of attribute `name`, empty when there is none.
pub open spec fn attr_or_empty(d: XmlNodeV, name: Seq<char>) -> Seq<char> {
    match attr(d, name) {
        Some(v) => v,
        None => Seq::empty(),
    }
}

fn attr_or_empty_exec(n: &XmlNode, name: &str) -> (r: String)
    ensures
        r@ == attr_or_empty(xview(*n), name@),
{
    match attr_exec(n, name) {
        Some(v) => v,
        None => String::new(),
    }
}

// ---------------------------------------------------------------------
// Entries

/// The link names an acquisition (a book to download).
pub open spec fn is_acquisition_link(rel: Seq<char>, ty: Seq<char>, href: Seq<char>) -> bool {
    contains_seq(rel, "acquisition"@) || contains_seq(ty, "epub"@) || contains_seq(ty, "fb2"@) || ends_with(
        href,
        ".epub"@,
    ) || ends_with(href, ".fb2"@) || ends_with(href, ".fb2.zip"@) || contains_seq(href, ".epub."@)
}

/// The link names another catalog.
pub open spec fn is_catalog_link(rel: Seq<char>, ty: Seq<char>, href: Seq<char>) -> bool {
    contains_seq(rel, "subsection"@) || contains_seq(rel, "related"@) || contains_seq(ty, "opds-catalog"@)
        || contains_seq(ty, "atom+xml"@) || ends_with(href, ".opds"@)
}

/// One child of an entry: a `link` with a non-empty `href` may set the
/// acquisition link (the first, unless a later one is of an EPUB type) or
/// the catalog link (the first).
pub open spec fn entry_link_step(
    st: (Option<Seq<char>>, Option<Seq<char>>),
    c: XmlNodeV,
    base: Seq<char>,
) -> (Option<Seq<char>>, Option<Seq<char>>) {
    if is_element(c) && name_ci(local_name(c), "link"@) && attr_or_empty(c, "href"@).len() > 0 {
        let href = resolved_url(base, attr_or_empty(c, "href"@));
        let rel = attr_or_empty(c, "rel"@);
        let ty = attr_or_empty(c, "type"@);
        if is_acquisition_link(rel, ty, href) && (st.0 is None || contains_seq(ty, "epub"@)) {
            (Some(href), st.1)
        } else if is_catalog_link(rel, ty, href) && st.1 is None {
            (st.0, Some(href))
        } else {
            st
        }
    } else {
        st
    }
}

pub open spec fn entry_links(cs: Seq<XmlNodeV>, base: Seq<char>) -> (Option<Seq<char>>, Option<Seq<char>>)
    decreases cs.len(),
{
    if cs.len() == 0 {
        (None, None)
    } else {
        entry_link_step(entry_links(cs.drop_last(), base), cs.last(), base)
    }
}

/// The author of an entry: the name of its first `author`, else the text
/// of its first `content`, else "Unknown Author".
pub open spec fn entry_author(cs: Seq<XmlNodeV>) -> Seq<char> {
    let from_author = match first_child_ci(cs, "author"@) {
        Some(a) => trimmed_text(first_child_ci(children_of(a), "name"@)),
        None => None,
    };
    match from_author {
        Some(x) => x,
        None => match trimmed_text(first_child_ci(cs, "content"@)) {
            Some(x) => x,
            None => "Unknown Author"@,
        },
    }
}

/// `c` is an element named `a` (ASCII case aside).
pub open spec fn is_named_ci(c: XmlNodeV, a: Seq<char>) -> bool {
    is_element(c) && name_ci(local_name(c), a)
}

/// The first element named `a` is the one at `i` when none comes before it.
proof fn lemma_first_child_at(cs: Seq<XmlNodeV>, a: Seq<char>, i: int)
    requires
        0 <= i < cs.len(),
        is_named_ci(cs[i], a),
        forall|k: int| 0 <= k < i ==> !is_named_ci(#[trigger] cs[k], a),
    ensures
        first_child_ci(cs, a) == Some(cs[i]),
    decreases i,
{
    if i > 0 {
        assert(!is_named_ci(cs[0], a));
        assert forall|k: int| 0 <= k < i - 1 implies !is_named_ci(#[trigger] cs.skip(1)[k], a) by {
            assert(cs.skip(1)[k] == cs[k + 1]);
        }
        lemma_first_child_at(cs.skip(1), a, i - 1);
    }
}

/// With no element named `a`, there is no first one.
proof fn lemma_first_child_none(cs: Seq<XmlNodeV>, a: Seq<char>)
    requires
        forall|k: int| 0 <= k < cs.len() ==> !is_named_ci(#[trigger] cs[k], a),
    ensures
        first_child_ci(cs, a) is None,
    decreases cs.len(),
{
    if cs.len() > 0 {
        assert(!is_named_ci(cs[0], a));
        assert forall|k: int| 0 <= k < cs.skip(1).len() implies !is_named_ci(#[trigger] cs.skip(1)[k], a) by {
            assert(cs.skip(1)[k] == cs[k + 1]);
        }
        lemma_first_child_none(cs.skip(1), a);
    }
}

/// The author of an entry is the text of the first `name` of its first
/// `author` element, trimmed, whatever else the entry holds.
pub proof fn lemma_entry_author_from_author_name(cs: Seq<XmlNodeV>, i: int, j: int, t: Seq<char>)
    requires
        0 <= i < cs.len(),
        is_named_ci(cs[i], "author"@),
        forall|k: int| 0 <= k < i ==> !is_named_ci(#[trigger] cs[k], "author"@),
        0 <= j < children_of(cs[i]).len(),
        is_named_ci(children_of(cs[i])[j], "name"@),
        forall|k: int| 0 <= k < j ==> !is_named_ci(#[trigger] children_of(cs[i])[k], "name"@),
        node_text(children_of(cs[i])[j]) == Some(t),
    ensures
        entry_author(cs) == trimmed(t),
{
    lemma_first_child_at(cs, "author"@, i);
    lemma_first_child_at(children_of(cs[i]), "name"@, j);
}

/// An entry with no `author` element is credited to the text of its first
/// `content` element, trimmed, or to "Unknown Author" when that has none.
pub proof fn lemma_entry_author_without_author(cs: Seq<XmlNodeV>)
    requires
        forall|k: int| 0 <= k < cs.len() ==> !is_named_ci(#[trigger] cs[k], "author"@),
    ensures
        entry_author(cs) == match trimmed_text(first_child_ci(cs, "content"@)) {
            Some(x) => x,
            None => "Unknown Author"@,
        },
{
    lemma_first_child_none(cs, "author"@);
}

/// The summary of an entry: the text of its first `summary` or `content`.
pub open spec fn entry_summary(cs: Seq<XmlNodeV>) -> Seq<char> {
    match trimmed_text(first_child_any(cs, "summary"@, "content"@)) {
        Some(x) => x,
        None => Seq::empty(),
    }
}

/// The entry read from an `entry` element with children `cs`: none
/// without a titled `title`, or without a link to a book or a catalog.
pub open spec fn opds_entry(cs: Seq<XmlNodeV>, base: Seq<char>) -> Option<OpdsEntryV> {
    match trimmed_text(first_child_ci(cs, "title"@)) {
        None => None,
        Some(title) => {
            let links = entry_links(cs, base);
            let link = if links.0 is Some {
                Some(OpdsLinkV::Acquisition(links.0->0))
            } else if links.1 is Some {
                Some(OpdsLinkV::Catalog(links.1->0))
            } else {
                None
            };
            match link {
                Some(l) => Some(OpdsEntryV { title, author: entry_author(cs), summary: entry_summary(cs), link: l }),
                None => None,
            }
        },
    }
}

fn entry_links_exec(cs: &Vec<XmlNode>, base: &str) -> (r: (Option<String>, Option<String>))
    ensures
        (opt_str_view(r.0), opt_str_view(r.1)) == entry_links(xviews(cs@), base@),
{
    let mut acq: Option<String> = None;
    let mut cat: Option<String> = None;
    let mut i: usize = 0;
    proof {
        lemma_xviews_len(cs@);
        assert(xviews(cs@.take(0)) =~= Seq::<XmlNodeV>::empty());
    }
    while i < cs.len()
        invariant
            i <= cs@.len(),
            (opt_str_view(acq), opt_str_view(cat)) == entry_links(xviews(cs@.take(i as int)), base@),
        decreases cs.len() - i,
    {
        proof {
            lemma_xviews_take(cs@, i as int);
            let xs = xviews(cs@.take(i as int));
            let x = xview(cs@[i as int]);
            assert(xs.push(x).drop_last() =~= xs);
            assert(xs.push(x).last() == x);
        }
        let c = &cs[i];
        let is_link = match c {
            XmlNode::Element { name, .. } => name_ci_exec(name, "link"),
            _ => false,
        };
        if is_link {
            let raw = attr_or_empty_exec(c, "href");
            if raw.unicode_len() > 0 {
                let href = resolve_url(base, raw.as_str());
                let rel = chars_of(attr_or_empty_exec(c, "rel").as_str());
                let ty = chars_of(attr_or_empty_exec(c, "type").as_str());
                let hc = chars_of(href.as_str());
                let acquisition = contains_exec(&rel, "acquisition") || contains_exec(&ty, "epub")
                    || contains_exec(&ty, "fb2") || ends_with_exec(&hc, ".epub") || ends_with_exec(&hc, ".fb2")
                    || ends_with_exec(&hc, ".fb2.zip") || contains_exec(&hc, ".epub.");
                let catalog = contains_exec(&rel, "subsection") || contains_exec(&rel, "related")
                    || contains_exec(&ty, "opds-catalog") || contains_exec(&ty, "atom+xml")
                    || ends_with_exec(&hc, ".opds");
                if acquisition && (acq.is_none() || contains_exec(&ty, "epub")) {
                    acq = Some(href);
                } else if catalog && cat.is_none() {
                    cat = Some(href);
                }
            }
        }
        i = i + 1;
    }
    assert(cs@.take(cs@.len() as int) =~= cs@);
    (acq, cat)
}

fn entry_author_exec(cs: &Vec<XmlNode>) -> (r: String)
    ensures
        r@ == entry_author(xviews(cs@)),
{
    let from_author = match find_child(cs, "author", "author") {
        Some(a) => match a {
            XmlNode::Element { children, .. } => trimmed_text_exec(find_child(children, "name", "name")),
            _ => {
                proof {
                    assert(xviews(Seq::<XmlNode>::empty()) =~= Seq::<XmlNodeV>::empty());
                }
                None
            },
        },
        None => None,
    };
    match from_author {
        Some(x) => x,
        None => match trimmed_text_exec(find_child(cs, "content", "content")) {
            Some(x) => x,
            None => owned("Unknown Author"),
        },
    }
}

fn parse_entry(cs: &Vec<XmlNode>, base: &str) -> (r: Option<OpdsEntry>)
    ensures
        match opds_entry(xviews(cs@), base@) {
            Some(e) => r matches Some(x) && x@ == e,
            None => r is None,
        },
{
    let title = match trimmed_text_exec(find_child(cs, "title", "title")) {
        Some(t) => t,
        None => {
            return None;
        },
    };
    let (acq, cat) = entry_links_exec(cs, base);
    let link = match acq {
        Some(a) => OpdsLinkType::Acquisition(a),
        None => match cat {
            Some(c) => OpdsLinkType::Catalog(c),
            None => {
                return None;
            },
        },
    };
    let author = entry_author_exec(cs);
    let summary = match trimmed_text_exec(find_child(cs, "summary", "content")) {
        Some(s) => s,
        None => String::new(),
    };
    Some(OpdsEntry { title, author, summary, link })
}

// ---------------------------------------------------------------------
// The feed

/// One child of the feed element: a `link` with a non-empty `href` may
/// set the next page (`rel="next"`) or the search (`rel="search"`, or an
/// OpenSearch type).
pub open spec fn feed_link_step(
    st: (Option<Seq<char>>, Option<Seq<char>>),
    c: XmlNodeV,
    base: Seq<char>,
) -> (Option<Seq<char>>, Option<Seq<char>>) {
    if is_element(c) && name_ci(local_name(c), "link"@) && attr_or_empty(c, "href"@).len() > 0 {
        let full = resolved_url(base, attr_or_empty(c, "href"@));
        let rel = attr_or_empty(c, "rel"@);
        if rel == "next"@ {
            (Some(full), st.1)
        } else if rel == "search"@ || contains_seq(attr_or_empty(c, "type"@), "opensearch"@) {
            (st.0, Some(full))
        } else {
            st
        }
    } else {
        st
    }
}

pub open spec fn feed_links(cs: Seq<XmlNodeV>, base: Seq<char>) -> (Option<Seq<char>>, Option<Seq<char>>)
    decreases cs.len(),
{
    if cs.len() == 0 {
        (None, None)
    } else {
        feed_link_step(feed_links(cs.drop_last(), base), cs.last(), base)
    }
}

/// The entries read from the `entry` elements among `cs`, in order.
pub open spec fn feed_entries(cs: Seq<XmlNodeV>, base: Seq<char>) -> Seq<OpdsEntryV>
    decreases cs.len(),
{
    if cs.len() == 0 {
        Seq::empty()
    } else {
        let prev = feed_entries(cs.drop_last(), base);
        let c = cs.last();
        if is_element(c) && name_ci(local_name(c), "entry"@) && opds_entry(children_of(c), base) is Some {
            prev.push(opds_entry(children_of(c), base)->0)
        } else {
            prev
        }
    }
}

/// An entry read from an `entry` element carries the trimmed text of its
/// first `title` as its title and its author (see `entry_author`); one
/// whose first `title` has no text is not read at all.
pub proof fn lemma_entry_title_and_author(cs: Seq<XmlNodeV>, base: Seq<char>, i: int)
    requires
        0 <= i < cs.len(),
        is_named_ci(cs[i], "title"@),
        forall|k: int| 0 <= k < i ==> !is_named_ci(#[trigger] cs[k], "title"@),
    ensures
        node_text(cs[i]) is None ==> opds_entry(cs, base) is None,
        opds_entry(cs, base) matches Some(e) ==> node_text(cs[i]) is Some && e.title == trimmed(
            node_text(cs[i])->0,
        ) && e.author == entry_author(cs),
{
    lemma_first_child_at(cs, "title"@, i);
}

/// An `entry` element that reads as an entry.
pub open spec fn is_readable_entry(c: XmlNodeV, base: Seq<char>) -> bool {
    is_named_ci(c, "entry"@) && opds_entry(children_of(c), base) is Some
}

/// A feed lists its readable entries, each once, in document order.
pub proof fn lemma_feed_entries_in_order(cs: Seq<XmlNodeV>, base: Seq<char>)
    ensures
        feed_entries(cs, base) == cs.filter(|c: XmlNodeV| is_readable_entry(c, base)).map_values(
            |c: XmlNodeV| opds_entry(children_of(c), base)->0,
        ),
    decreases cs.len(),
{
    reveal(Seq::filter);
    let f = |c: XmlNodeV| is_readable_entry(c, base);
    let g = |c: XmlNodeV| opds_entry(children_of(c), base)->0;
    if cs.len() > 0 {
        lemma_feed_entries_in_order(cs.drop_last(), base);
        assert(cs.filter(f).map_values(g) =~= if f(cs.last()) {
            cs.drop_last().filter(f).map_values(g).push(g(cs.last()))
        } else {
            cs.drop_last().filter(f).map_values(g)
        });
    } else {
        assert(cs.filter(f).map_values(g) =~= Seq::<OpdsEntryV>::empty());
    }
}

/// The feed read from a `feed` element with children `cs`, fetched from
/// `base`.
pub open spec fn feed_of(cs: Seq<XmlNodeV>, base: Seq<char>) -> OpdsFeedV {
    let links = feed_links(cs, base);
    OpdsFeedV {
        title: match trimmed_text(first_child_ci(cs, "title"@)) {
            Some(t) => t,
            None => "OPDS Catalog"@,
        },
        url: base,
        next_url: links.0,
        search_url: links.1,
        entries: feed_entries(cs, base),
    }
}

/// What parsing a feed gives: a document that does not parse, or whose
/// root is not `feed`, is refused.
pub open spec fn opds_outcome(xml: Seq<char>, base: Seq<char>, r: Result<OpdsFeed>) -> bool {
    match xml_records(xml) {
        Err(m) => r matches Err(AppError::Parse(msg)) && msg@ == "Failed to parse OPDS XML feed: "@ + m,
        Ok(recs) => match (if recs.len() > 0 { root_element(document_tree(recs)) } else { None }) {
            None => r matches Err(AppError::Parse(_)),
            Some(root) => if name_ci(local_name(root), "feed"@) {
                r matches Ok(f) && f@ == feed_of(children_of(root), base)
            } else {
                r matches Err(AppError::Parse(msg)) && msg@ == "Root element is not <feed>"@
            },
        },
    }
}

fn feed_links_exec(cs: &Vec<XmlNode>, base: &str) -> (r: (Option<String>, Option<String>))
    ensures
        (opt_str_view(r.0), opt_str_view(r.1)) == feed_links(xviews(cs@), base@),
{
    let mut next: Option<String> = None;
    let mut search: Option<String> = None;
    let mut i: usize = 0;
    proof {
        lemma_xviews_len(cs@);
        assert(xviews(cs@.take(0)) =~= Seq::<XmlNodeV>::empty());
    }
    while i < cs.len()
        invariant
            i <= cs@.len(),
            (opt_str_view(next), opt_str_view(search)) == feed_links(xviews(cs@.take(i as int)), base@),
        decreases cs.len() - i,
    {
        proof {
            lemma_xviews_take(cs@, i as int);
            let xs = xviews(cs@.take(i as int));
            let x = xview(cs@[i as int]);
            assert(xs.push(x).drop_last() =~= xs);
            assert(xs.push(x).last() == x);
        }
        let c = &cs[i];
        let is_link = match c {
            XmlNode::Element { name, .. } => name_ci_exec(name, "link"),
            _ => false,
        };
        if is_link {
            let raw = attr_or_empty_exec(c, "href");
            if raw.unicode_len() > 0 {
                let full = resolve_url(base, raw.as_str());
                let rel = attr_or_empty_exec(c, "rel");
                let ty = chars_of(attr_or_empty_exec(c, "type").as_str());
                if str_eq(rel.as_str(), "next") {
                    next = Some(full);
                } else if str_eq(rel.as_str(), "search") || contains_exec(&ty, "opensearch") {
                    search = Some(full);
                }
            }
        }
        i = i + 1;
    }
    assert(cs@.take(cs@.len() as int) =~= cs@);
    (next, search)
}

fn feed_entries_exec(cs: &Vec<XmlNode>, base: &str) -> (r: Vec<OpdsEntry>)
    ensures
        entry_views(r@) == feed_entries(xviews(cs@), base@),
{
    let mut out: Vec<OpdsEntry> = Vec::new();
    let mut i: usize = 0;
    proof {
        lemma_xviews_len(cs@);
        assert(xviews(cs@.take(0)) =~= Seq::<XmlNodeV>::empty());
        assert(entry_views(out@) =~= Seq::<OpdsEntryV>::empty());
    }
    while i < cs.len()
        invariant
            i <= cs@.len(),
            entry_views(out@) == feed_entries(xviews(cs@.take(i as int)), base@),
        decreases cs.len() - i,
    {
        proof {
            lemma_xviews_take(cs@, i as int);
            let xs = xviews(cs@.take(i as int));
            let x = xview(cs@[i as int]);
            assert(xs.push(x).drop_last() =~= xs);
            assert(xs.push(x).last() == x);
        }
        match &cs[i] {
            XmlNode::Element { name, children, .. } => {
                if name_ci_exec(name, "entry") {
                    match parse_entry(children, base) {
                        Some(e) => {
                            let ghost prev = entry_views(out@);
                            out.push(e);
                            assert(entry_views(out@) =~= prev.push(out@.last()@));
                        },
                        None => {},
                    }
                }
            },
            _ => {},
        }
        i = i + 1;
    }
    assert(cs@.take(cs@.len() as int) =~= cs@);
    out
}

/// Parses an OPDS feed fetched from `base_url` (see `opds_outcome`).
pub fn parse_opds_feed(xml_str: &str, base_url: &str) -> (r: Result<OpdsFeed>)
    ensures
        opds_outcome(xml_str@, base_url@, r),
{
    let doc = match parse_xml(xml_str) {
        Ok(d) => d,
        Err(m) => {
            let mut msg = owned("Failed to parse OPDS XML feed: ");
            msg.append(m.as_str());
            return Err(AppError::Parse(msg));
        },
    };
    let root = match root_element_exec(&doc) {
        Some(r) => r,
        None => {
            return Err(AppError::Parse(owned("Failed to parse OPDS XML feed: the document has no root element")));
        },
    };
    match root {
        XmlNode::Element { name, children, .. } => {
            if !name_ci_exec(name, "feed") {
                return Err(AppError::Parse(owned("Root element is not <feed>")));
            }
            let title = match trimmed_text_exec(find_child(children, "title", "title")) {
                Some(t) => t,
                None => owned("OPDS Catalog"),
            };
            let (next_url, search_url) = feed_links_exec(children, base_url);
            let entries = feed_entries_exec(children, base_url);
            Ok(OpdsFeed { title, url: owned(base_url), next_url, search_url, entries })
        },
        _ => {
            proof {
                reveal_strlit("feed");
            }
            assert(!name_ci(local_name(xview(*root)), "feed"@));
            Err(AppError::Parse(owned("Root element is not <feed>")))
        },
    }
}

} // verus!
