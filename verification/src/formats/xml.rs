//! XML documents as trees of the library's own nodes. The text is parsed
//! by `roxmltree`; its nodes come back in document order with their depth
//! and are assembled into a tree here.
use crate::text::owned;
use roxmltree::Document;
use roxmltree::NodeType::{
    Comment as CommentNode, Element as ElementNode, Root as RootNode, Text as TextNode, PI as PiNode,
};
use vstd::prelude::*;
use XmlKind::{Comment, Element, Instruction, Root, Text};

verus! {

#[derive(Debug, Clone, Copy, PartialEq, Eq, Structural)]
pub enum XmlKind {
    /// The document node.
    Root,
    Element,
    Text,
    Comment,
    /// A processing instruction.
    Instruction,
}

/// An attribute: namespace URI, local name, value.
#[derive(Debug)]
pub struct XmlAttr {
    pub namespace: Option<String>,
    pub name: String,
    pub value: String,
}

pub struct XmlAttrV {
    pub namespace: Option<Seq<char>>,
    pub name: Seq<char>,
    pub value: Seq<char>,
}

pub open spec fn opt_chars(o: Option<String>) -> Option<Seq<char>> {
    match o {
        Some(s) => Some(s@),
        None => None,
    }
}

impl View for XmlAttr {
    type V = XmlAttrV;

    open spec fn view(&self) -> XmlAttrV {
        XmlAttrV { namespace: opt_chars(self.namespace), name: self.name@, value: self.value@ }
    }
}

pub open spec fn attr_views(s: Seq<XmlAttr>) -> Seq<XmlAttrV> {
    s.map_values(|a: XmlAttr| a@)
}

/// One node of a document, as listed in document order: its depth (the
/// number of its ancestors, itself included; only the differences between
/// depths matter), kind, element name and namespace, attributes, and its
/// text, if it has one (that of a text node; what an element holds here is
/// not read).
#[derive(Debug)]
pub struct XmlRecord {
    pub depth: usize,
    pub kind: XmlKind,
    pub namespace: Option<String>,
    pub name: String,
    pub text: Option<String>,
    pub attrs: Vec<XmlAttr>,
}

pub struct XmlRecordV {
    pub depth: int,
    pub kind: XmlKind,
    pub namespace: Option<Seq<char>>,
    pub name: Seq<char>,
    pub text: Option<Seq<char>>,
    pub attrs: Seq<XmlAttrV>,
}

impl View for XmlRecord {
    type V = XmlRecordV;

    open spec fn view(&self) -> XmlRecordV {
        XmlRecordV {
            depth: self.depth as int,
            kind: self.kind,
            namespace: opt_chars(self.namespace),
            name: self.name@,
            text: opt_chars(self.text),
            attrs: attr_views(self.attrs@),
        }
    }
}

pub open spec fn record_views(s: Seq<XmlRecord>) -> Seq<XmlRecordV> {
    s.map_values(|r: XmlRecord| r@)
}

/// What `roxmltree::Document::parse` makes of a text: its nodes in
/// document order, or the message of the error that stopped it.
pub uninterp spec fn xml_records(text: Seq<char>) -> Result<Seq<XmlRecordV>, Seq<char>>;

pub open spec fn records_result(r: Result<Vec<XmlRecord>, String>) -> Result<Seq<XmlRecordV>, Seq<char>> {
    match r {
        Ok(v) => Ok(record_views(v@)),
        Err(m) => Err(m@),
    }
}

/// `roxmltree::Document::parse`, with the nodes of the document listed by
/// `descendants` (document order) and taken apart into plain values. The
/// contract names the result and claims nothing else of it.
#[verifier::external_body]
pub(crate) fn parse_xml_records(text: &str) -> (r: Result<Vec<XmlRecord>, String>)
    ensures
        records_result(r) == xml_records(text@),
{
    Document::parse(text).map(|doc| doc.descendants().map(|n| XmlRecord {
        depth: n.ancestors().count(),
        kind: match n.node_type() {
            RootNode => Root,
            ElementNode => Element,
            TextNode => Text,
            CommentNode => Comment,
            PiNode => Instruction,
        },
        namespace: n.tag_name().namespace().map(String::from),
        name: n.tag_name().name().to_string(),
        text: n.text().map(String::from),
        attrs: n.attributes().map(|a| XmlAttr { namespace: a.namespace().map(String::from), name: a.name().to_string(), value: a.value().to_string() }).collect(),
    }).collect()).map_err(|e| e.to_string())
}

/// A node of a document tree.
#[derive(Debug)]
pub enum XmlNode {
    Element { namespace: Option<String>, name: String, attrs: Vec<XmlAttr>, children: Vec<XmlNode> },
    Text(String),
    Other,
}

pub enum XmlNodeV {
    Element { namespace: Option<Seq<char>>, name: Seq<char>, attrs: Seq<XmlAttrV>, children: Seq<XmlNodeV> },
    Text(Seq<char>),
    Other,
}

pub open spec fn xview(n: XmlNode) -> XmlNodeV
    decreases n,
{
    match n {
        XmlNode::Element { namespace, name, attrs, children } => XmlNodeV::Element {
            namespace: opt_chars(namespace),
            name: name@,
            attrs: attr_views(attrs@),
            children: xviews(children@),
        },
        XmlNode::Text(t) => XmlNodeV::Text(t@),
        XmlNode::Other => XmlNodeV::Other,
    }
}

pub open spec fn xviews(s: Seq<XmlNode>) -> Seq<XmlNodeV>
    decreases s,
{
    if s.len() == 0 {
        Seq::empty()
    } else {
        xviews(s.drop_last()).push(xview(s.last()))
    }
}

/// The node that record `r` stands for, with the given children: the
/// document node is read as an element without a name, a text node
/// without text as empty text, comments and instructions as `Other`.
pub open spec fn node_of(r: XmlRecordV, children: Seq<XmlNodeV>) -> XmlNodeV {
    match r.kind {
        XmlKind::Root => XmlNodeV::Element { namespace: r.namespace, name: r.name, attrs: r.attrs, children },
        XmlKind::Element => XmlNodeV::Element { namespace: r.namespace, name: r.name, attrs: r.attrs, children },
        XmlKind::Text => XmlNodeV::Text(
            match r.text {
                Some(t) => t,
                None => Seq::empty(),
            },
        ),
        XmlKind::Comment => XmlNodeV::Other,
        XmlKind::Instruction => XmlNodeV::Other,
    }
}

/// The tree rooted at record `i` and the position after its last record:
/// the records that follow it deeper than it are its descendants.
pub open spec fn subtree(recs: Seq<XmlRecordV>, i: int) -> (XmlNodeV, int)
    decreases recs.len() - i, 0int,
{
    if 0 <= i < recs.len() {
        let c = children_from(recs, i + 1, recs[i].depth);
        (node_of(recs[i], c.0), c.1)
    } else {
        (XmlNodeV::Other, i + 1)
    }
}

/// The subtrees starting at record `j` while the records are deeper than
/// `d`, and the position after them.
pub open spec fn children_from(recs: Seq<XmlRecordV>, j: int, d: int) -> (Seq<XmlNodeV>, int)
    decreases recs.len() - j, 1int,
{
    if j < 0 || j >= recs.len() || recs[j].depth <= d {
        (Seq::empty(), j)
    } else {
        let c = subtree(recs, j);
        let next = if c.1 > j && c.1 <= recs.len() { c.1 } else { j + 1 };
        let rest = children_from(recs, next, d);
        (seq![c.0] + rest.0, rest.1)
    }
}

/// The document tree of a list of records: the tree of the first record
/// (the document node).
pub open spec fn document_tree(recs: Seq<XmlRecordV>) -> XmlNodeV {
    subtree(recs, 0).0
}

fn copy_opt(o: &Option<String>) -> (r: Option<String>)
    ensures
        opt_chars(r) == opt_chars(*o),
{
    match o {
        Some(s) => Some(owned(s.as_str())),
        None => None,
    }
}

fn copy_attrs(a: &Vec<XmlAttr>) -> (r: Vec<XmlAttr>)
    ensures
        attr_views(r@) == attr_views(a@),
{
    let mut r: Vec<XmlAttr> = Vec::new();
    let mut i: usize = 0;
    while i < a.len()
        invariant
            i <= a@.len(),
            attr_views(r@) == attr_views(a@).take(i as int),
        decreases a.len() - i,
    {
        let x = XmlAttr {
            namespace: copy_opt(&a[i].namespace),
            name: owned(a[i].name.as_str()),
            value: owned(a[i].value.as_str()),
        };
        let ghost prev = attr_views(r@);
        r.push(x);
        assert(attr_views(r@) =~= prev.push(a@[i as int]@));
        assert(attr_views(a@).take(i + 1) =~= attr_views(a@).take(i as int).push(a@[i as int]@));
        i = i + 1;
    }
    assert(attr_views(a@).take(a@.len() as int) =~= attr_views(a@));
    r
}

proof fn lemma_xviews_push(s: Seq<XmlNode>, n: XmlNode)
    ensures
        xviews(s.push(n)) == xviews(s).push(xview(n)),
{
    assert(s.push(n).drop_last() =~= s);
}

/// Builds the tree rooted at record `i` (see `subtree`).
fn build_subtree(recs: &Vec<XmlRecord>, i: usize) -> (r: (XmlNode, usize))
    requires
        i < recs@.len(),
    ensures
        xview(r.0) == subtree(record_views(recs@), i as int).0,
        r.1 == subtree(record_views(recs@), i as int).1,
        i < r.1 <= recs@.len(),
    decreases recs@.len() - i,
{
    let ghost rv = record_views(recs@);
    let n = recs.len();
    let d = recs[i].depth;
    let mut children: Vec<XmlNode> = Vec::new();
    let mut j: usize = i + 1;
    assert(children_from(rv, i + 1, d as int) == (xviews(children@) + children_from(rv, j as int, d as int).0, children_from(rv, j as int, d as int).1));
    while j < recs.len() && recs[j].depth > d
        invariant
            i < j <= recs@.len(),
            rv == record_views(recs@),
            d == rv[i as int].depth,
            children_from(rv, i + 1, d as int) == (xviews(children@) + children_from(rv, j as int, d as int).0, children_from(rv, j as int, d as int).1),
        decreases recs@.len() - j,
    {
        let (c, next) = build_subtree(recs, j);
        let ghost prev = xviews(children@);
        proof {
            lemma_xviews_push(children@, c);
        }
        children.push(c);
        assert(xviews(children@) =~= prev + seq![subtree(rv, j as int).0]);
        j = next;
    }
    assert(children_from(rv, j as int, d as int).0 =~= Seq::<XmlNodeV>::empty());
    assert(xviews(children@) + Seq::<XmlNodeV>::empty() =~= xviews(children@));
    let node = match recs[i].kind {
        XmlKind::Root | XmlKind::Element => XmlNode::Element {
            namespace: copy_opt(&recs[i].namespace),
            name: owned(recs[i].name.as_str()),
            attrs: copy_attrs(&recs[i].attrs),
            children,
        },
        XmlKind::Text => XmlNode::Text(
            match &recs[i].text {
                Some(t) => owned(t.as_str()),
                None => String::new(),
            },
        ),
        XmlKind::Comment | XmlKind::Instruction => XmlNode::Other,
    };
    (node, j)
}

/// The document tree of a list of records (see `document_tree`); `None`
/// for an empty list.
pub fn build_tree(recs: &Vec<XmlRecord>) -> (r: Option<XmlNode>)
    ensures
        recs@.len() == 0 ==> r is None,
        recs@.len() > 0 ==> (r matches Some(n) && xview(n) == document_tree(record_views(recs@))),
{
    if recs.len() == 0 {
        None
    } else {
        let (n, _) = build_subtree(recs, 0);
        Some(n)
    }
}

/// The document tree of a text, or the parser's error message.
pub fn parse_xml(text: &str) -> (r: Result<XmlNode, String>)
    ensures
        match xml_records(text@) {
            Ok(recs) => (recs.len() > 0 ==> (r matches Ok(n) && xview(n) == document_tree(recs))) && (recs.len()
                == 0 ==> r is Err),
            Err(m) => r matches Err(e) && e@ == m,
        },
{
    match parse_xml_records(text) {
        Ok(recs) => match build_tree(&recs) {
            Some(n) => Ok(n),
            None => Err(owned("empty document")),
        },
        Err(m) => Err(m),
    }
}


// ---------------------------------------------------------------------
// Reading nodes

pub open spec fn is_element(n: XmlNodeV) -> bool {
    n is Element
}

/// The local name of an element (empty for other nodes).
pub open spec fn local_name(n: XmlNodeV) -> Seq<char> {
    match n {
        XmlNodeV::Element { name, .. } => name,
        _ => Seq::empty(),
    }
}

pub open spec fn children_of(n: XmlNodeV) -> Seq<XmlNodeV> {
    match n {
        XmlNodeV::Element { children, .. } => children,
        _ => Seq::empty(),
    }
}

pub open spec fn attrs_of(n: XmlNodeV) -> Seq<XmlAttrV> {
    match n {
        XmlNodeV::Element { attrs, .. } => attrs,
        _ => Seq::empty(),
    }
}

/// The value of the first attribute with namespace `ns` and local name
/// `name`, as `roxmltree::Node::attribute` finds it.
pub open spec fn find_attr(attrs: Seq<XmlAttrV>, ns: Option<Seq<char>>, name: Seq<char>) -> Option<Seq<char>>
    decreases attrs.len(),
{
    if attrs.len() == 0 {
        None
    } else if attrs[0].namespace == ns && attrs[0].name == name {
        Some(attrs[0].value)
    } else {
        find_attr(attrs.skip(1), ns, name)
    }
}

/// The unqualified attribute `name` of a node.
pub open spec fn attr(n: XmlNodeV, name: Seq<char>) -> Option<Seq<char>> {
    find_attr(attrs_of(n), None, name)
}

pub open spec fn xlink_ns() -> Seq<char> {
    "http://www.w3.org/1999/xlink"@
}

/// The link target of a node: `xlink:href`, else `href`.
pub open spec fn href_of(n: XmlNodeV) -> Option<Seq<char>> {
    match find_attr(attrs_of(n), Some(xlink_ns()), "href"@) {
        Some(v) => Some(v),
        None => attr(n, "href"@),
    }
}

/// The text of a node as `roxmltree::Node::text` gives it: a text node's
/// own text, an element's first child when that is text.
pub open spec fn node_text(n: XmlNodeV) -> Option<Seq<char>> {
    match n {
        XmlNodeV::Element { children, .. } => if children.len() > 0 && children[0] is Text {
            Some(children[0]->0)
        } else {
            None
        },
        XmlNodeV::Text(t) => Some(t),
        XmlNodeV::Other => None,
    }
}

fn opt_str_eq(a: &Option<String>, b: Option<&str>) -> (r: bool)
    ensures
        r == (opt_chars(*a) == match b {
            Some(x) => Some(x@),
            None => None::<Seq<char>>,
        }),
{
    match (a, b) {
        (Some(x), Some(y)) => crate::config::keymap::str_eq(x.as_str(), y),
        (None, None) => true,
        _ => false,
    }
}

pub fn find_attr_exec(attrs: &Vec<XmlAttr>, ns: Option<&str>, name: &str) -> (r: Option<String>)
    ensures
        opt_chars(r) == find_attr(attr_views(attrs@), match ns {
            Some(x) => Some(x@),
            None => None::<Seq<char>>,
        }, name@),
{
    let ghost nsv = match ns {
        Some(x) => Some(x@),
        None => None::<Seq<char>>,
    };
    let ghost av = attr_views(attrs@);
    let mut i: usize = 0;
    assert(av.skip(0) =~= av);
    while i < attrs.len()
        invariant
            i <= attrs@.len(),
            av == attr_views(attrs@),
            nsv == (match ns {
                Some(x) => Some(x@),
                None => None::<Seq<char>>,
            }),
            find_attr(av, nsv, name@) == find_attr(av.skip(i as int), nsv, name@),
        decreases attrs.len() - i,
    {
        assert(av.skip(i as int)[0] == attrs@[i as int]@);
        if opt_str_eq(&attrs[i].namespace, ns) && crate::config::keymap::str_eq(attrs[i].name.as_str(), name) {
            return Some(owned(attrs[i].value.as_str()));
        }
        assert(av.skip(i as int).skip(1) =~= av.skip(i + 1));
        i = i + 1;
    }
    None
}

/// The unqualified attribute `name` of a node.
pub fn attr_exec(n: &XmlNode, name: &str) -> (r: Option<String>)
    ensures
        opt_chars(r) == attr(xview(*n), name@),
{
    match n {
        XmlNode::Element { attrs, .. } => find_attr_exec(attrs, None, name),
        _ => None,
    }
}

pub fn href_exec(n: &XmlNode) -> (r: Option<String>)
    ensures
        opt_chars(r) == href_of(xview(*n)),
{
    proof {
        reveal_strlit("http://www.w3.org/1999/xlink");
    }
    match n {
        XmlNode::Element { attrs, .. } => match find_attr_exec(attrs, Some("http://www.w3.org/1999/xlink"), "href") {
            Some(v) => Some(v),
            None => find_attr_exec(attrs, None, "href"),
        },
        _ => None,
    }
}

pub fn node_text_exec(n: &XmlNode) -> (r: Option<String>)
    ensures
        opt_chars(r) == node_text(xview(*n)),
{
    match n {
        XmlNode::Element { children, .. } => {
            if children.len() > 0 {
                match &children[0] {
                    XmlNode::Text(t) => {
                        proof {
                            lemma_xviews_index(children@, 0);
                        }
                        return Some(owned(t.as_str()));
                    },
                    _ => {
                        proof {
                            lemma_xviews_index(children@, 0);
                        }
                    },
                }
            }
            None
        },
        XmlNode::Text(t) => Some(owned(t.as_str())),
        XmlNode::Other => None,
    }
}

/// The local name of a node (empty for other nodes).
pub fn local_name_exec(n: &XmlNode) -> (r: &str)
    ensures
        r@ == local_name(xview(*n)),
{
    proof {
        reveal_strlit("");
    }
    match n {
        XmlNode::Element { name, .. } => name.as_str(),
        _ => "",
    }
}

pub proof fn lemma_xviews_index(s: Seq<XmlNode>, i: int)
    requires
        0 <= i < s.len(),
    ensures
        xviews(s).len() == s.len(),
        xviews(s)[i] == xview(s[i]),
    decreases s.len(),
{
    lemma_xviews_len(s);
    if i < s.len() - 1 {
        lemma_xviews_index(s.drop_last(), i);
    }
}

pub proof fn lemma_xviews_len(s: Seq<XmlNode>)
    ensures
        xviews(s).len() == s.len(),
    decreases s.len(),
{
    if s.len() > 0 {
        lemma_xviews_len(s.drop_last());
    }
}

pub proof fn lemma_xviews_take(s: Seq<XmlNode>, i: int)
    requires
        0 <= i < s.len(),
    ensures
        xviews(s.take(i + 1)) == xviews(s.take(i)).push(xview(s[i])),
{
    assert(s.take(i + 1).drop_last() =~= s.take(i));
}

} // verus!
