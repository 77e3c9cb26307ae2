//! The parsed page as a flat list of nodes in document order, and the few
//! queries the extractors make of it.

use crate::text::{chars_of, str_eq};
use scraper::{Html, Node};
use std::collections::HashMap;
use vstd::prelude::*;

verus! {

/// What a node is.
pub enum NodeKind {
    /// An element: its lower-case tag name and its attributes.
    Element(String, Vec<(String, String)>),
    /// A text node.
    Text(String),
    /// The document itself, a comment, a doctype or the like.
    Other,
}

/// One node of the page, with the position of its parent in the list.
pub struct DomNode {
    pub parent: Option<usize>,
    pub kind: NodeKind,
}

/// What `scraper::Html::parse_document` builds from the text, walked in
/// document order from the document node.
pub uninterp spec fn html_nodes_of(s: Seq<char>) -> Seq<DomNode>;

/// Relies on `scraper::Html::parse_document` (an HTML5 parser, which never
/// fails): the tree is walked depth first and each node is copied with the
/// position of its parent. With scraper's `deterministic` feature the
/// attributes keep their source order, so the nodes depend on the text alone.
#[verifier::external_body]
fn html_parse(s: &str) -> (r: Vec<DomNode>)
    ensures
        r@ == html_nodes_of(s@),
{
    let html = Html::parse_document(s);
    let mut index = HashMap::new();
    let mut out = Vec::new();
    for n in html.tree.root().descendants() {
        index.insert(n.id(), out.len());
        let kind = match n.value() {
            Node::Element(e) => NodeKind::Element(e.name().into(), e.attrs().map(|(k, v)| (k.into(), v.into())).collect()),
            Node::Text(t) => NodeKind::Text(t.to_string()),
            _ => NodeKind::Other,
        };
        out.push(DomNode { parent: n.parent().and_then(|p| index.get(&p.id()).copied()), kind });
    }
    out
}

/// Parses an HTML document into its nodes in document order; the document
/// node comes first.
pub fn parse_html(s: &str) -> (r: Vec<DomNode>)
    ensures
        r@ == html_nodes_of(s@),
{
    html_parse(s)
}

/// The parent of node `j`, where it stands before `j`.
pub open spec fn parent_of(nodes: Seq<DomNode>, j: int) -> Option<int> {
    if 0 <= j < nodes.len() {
        match nodes[j].parent {
            Some(p) => if (p as int) < j { Some(p as int) } else { None },
            None => None,
        }
    } else {
        None
    }
}

/// Node `j` lies inside node `a`.
pub open spec fn is_desc(nodes: Seq<DomNode>, a: int, j: int) -> bool
    decreases j,
{
    match parent_of(nodes, j) {
        None => false,
        Some(p) => p == a || (p >= 0 && p < j && is_desc(nodes, a, p)),
    }
}

/// The position of the parent of node `j`, where it stands before `j`.
pub fn parent_of_exec(nodes: &Vec<DomNode>, j: usize) -> (r: Option<usize>)
    ensures
        match r {
            Some(p) => parent_of(nodes@, j as int) == Some(p as int),
            None => parent_of(nodes@, j as int) is None,
        },
{
    if j < nodes.len() {
        match nodes[j].parent {
            Some(p) => if p < j { Some(p) } else { None },
            None => None,
        }
    } else {
        None
    }
}

/// Whether node `j` lies inside node `a`.
pub fn is_desc_exec(nodes: &Vec<DomNode>, a: usize, j: usize) -> (r: bool)
    ensures
        r == is_desc(nodes@, a as int, j as int),
{
    let mut cur = j;
    loop
        invariant
            is_desc(nodes@, a as int, j as int) == is_desc(nodes@, a as int, cur as int),
        decreases cur,
    {
        match parent_of_exec(nodes, cur) {
            None => return false,
            Some(p) => {
                if p == a {
                    return true;
                }
                cur = p;
            },
        }
    }
}

/// The tag name of an element node.
pub open spec fn tag_of(n: DomNode) -> Option<Seq<char>> {
    match n.kind {
        NodeKind::Element(name, _) => Some(name@),
        _ => None,
    }
}

/// The value of the first attribute named `key`.
pub open spec fn attr_in(attrs: Seq<(String, String)>, key: Seq<char>) -> Option<Seq<char>>
    decreases attrs.len(),
{
    if attrs.len() == 0 {
        None
    } else if attrs[0].0@ == key {
        Some(attrs[0].1@)
    } else {
        attr_in(attrs.drop_first(), key)
    }
}

/// The value of attribute `key` of an element node.
pub open spec fn attr_of(n: DomNode, key: Seq<char>) -> Option<Seq<char>> {
    match n.kind {
        NodeKind::Element(_, attrs) => attr_in(attrs@, key),
        _ => None,
    }
}

/// The value of attribute `key` of node `n`, if it is an element that has one.
pub fn attr_exec<'a>(n: &'a DomNode, key: &str) -> (r: Option<&'a String>)
    ensures
        match r {
            Some(v) => attr_of(*n, key@) == Some(v@),
            None => attr_of(*n, key@) is None,
        },
{
    match &n.kind {
        NodeKind::Element(_, attrs) => {
            let mut i: usize = 0;
            assert(attrs@.subrange(0, attrs@.len() as int) =~= attrs@);
            while i < attrs.len()
                invariant
                    i <= attrs.len(),
                    attr_of(*n, key@) == attr_in(attrs@, key@),
                    attr_in(attrs@, key@) == attr_in(attrs@.subrange(i as int, attrs@.len() as int), key@),
                decreases attrs.len() - i,
            {
                let ghost rest = attrs@.subrange(i as int, attrs@.len() as int);
                assert(rest.drop_first() =~= attrs@.subrange(i + 1, attrs@.len() as int));
                if str_eq(attrs[i].0.as_str(), key) {
                    return Some(&attrs[i].1);
                }
                i = i + 1;
            }
            None
        },
        _ => None,
    }
}

/// Whether `n` is an element with one of the tag names `names`.
pub open spec fn named_in(n: DomNode, names: Seq<Seq<char>>) -> bool {
    match tag_of(n) {
        Some(t) => names.contains(t),
        None => false,
    }
}

pub open spec fn strs_view(ws: Seq<&str>) -> Seq<Seq<char>> {
    ws.map_values(|w: &str| w@)
}

/// Whether `n` is an element with one of the tag names `names`.
pub fn named_in_exec(n: &DomNode, names: &Vec<&str>) -> (r: bool)
    ensures
        r == named_in(*n, strs_view(names@)),
{
    match &n.kind {
        NodeKind::Element(t, _) => {
            let mut k: usize = 0;
            while k < names.len()
                invariant
                    k <= names.len(),
                    tag_of(*n) == Some(t@),
                    forall|j: int| 0 <= j < k ==> strs_view(names@)[j] != t@,
                decreases names.len() - k,
            {
                if str_eq(t.as_str(), names[k]) {
                    assert(strs_view(names@)[k as int] == t@);
                    return true;
                }
                k = k + 1;
            }
            false
        },
        _ => false,
    }
}

/// The positions, below `hi`, of the elements inside node `a` named in `names`,
/// in document order.
pub open spec fn named_below(nodes: Seq<DomNode>, a: int, names: Seq<Seq<char>>, hi: int) -> Seq<int>
    decreases hi,
{
    if hi <= 0 {
        Seq::empty()
    } else {
        let prev = named_below(nodes, a, names, hi - 1);
        if hi - 1 < nodes.len() && is_desc(nodes, a, hi - 1) && named_in(nodes[hi - 1], names) {
            prev.push(hi - 1)
        } else {
            prev
        }
    }
}

/// The elements inside node `a` named in `names`, in document order.
pub open spec fn select_named(nodes: Seq<DomNode>, a: int, names: Seq<Seq<char>>) -> Seq<int> {
    named_below(nodes, a, names, nodes.len() as int)
}

/// The positions of the elements inside node `a` named in `names`, in document order.
pub fn select_named_exec(nodes: &Vec<DomNode>, a: usize, names: &Vec<&str>) -> (r: Vec<usize>)
    ensures
        r@.map_values(|i: usize| i as int) == select_named(nodes@, a as int, strs_view(names@)),
        forall|k: int| 0 <= k < r@.len() ==> r@[k] < nodes@.len(),
{
    let mut out: Vec<usize> = Vec::new();
    let mut j: usize = 0;
    while j < nodes.len()
        invariant
            j <= nodes.len(),
            out@.map_values(|i: usize| i as int) == named_below(nodes@, a as int, strs_view(names@), j as int),
            forall|k: int| 0 <= k < out@.len() ==> out@[k] < nodes@.len(),
        decreases nodes.len() - j,
    {
        if is_desc_exec(nodes, a, j) && named_in_exec(&nodes[j], names) {
            let ghost prev = out@;
            out.push(j);
            assert(out@.map_values(|i: usize| i as int) =~= prev.map_values(|i: usize| i as int).push(j as int));
        }
        j = j + 1;
    }
    out
}

/// The texts of the text nodes inside node `a` below position `hi`, in order.
pub open spec fn texts_below(nodes: Seq<DomNode>, a: int, hi: int) -> Seq<Seq<char>>
    decreases hi,
{
    if hi <= 0 {
        Seq::empty()
    } else {
        let prev = texts_below(nodes, a, hi - 1);
        if hi - 1 < nodes.len() && is_desc(nodes, a, hi - 1) {
            match nodes[hi - 1].kind {
                NodeKind::Text(t) => prev.push(t@),
                _ => prev,
            }
        } else {
            prev
        }
    }
}

/// The texts inside node `a`, in document order.
pub open spec fn texts_in(nodes: Seq<DomNode>, a: int) -> Seq<Seq<char>> {
    texts_below(nodes, a, nodes.len() as int)
}

/// The texts of the text nodes inside node `a`, in document order.
pub fn texts_exec(nodes: &Vec<DomNode>, a: usize) -> (r: Vec<String>)
    ensures
        r@.map_values(|s: String| s@) == texts_in(nodes@, a as int),
{
    let mut out: Vec<String> = Vec::new();
    let mut j: usize = 0;
    while j < nodes.len()
        invariant
            j <= nodes.len(),
            out@.map_values(|s: String| s@) == texts_below(nodes@, a as int, j as int),
        decreases nodes.len() - j,
    {
        if is_desc_exec(nodes, a, j) {
            if let NodeKind::Text(t) = &nodes[j].kind {
                let ghost prev = out@;
                out.push(t.clone());
                assert(out@.map_values(|s: String| s@) =~= prev.map_values(|s: String| s@).push(t@));
            }
        }
        j = j + 1;
    }
    out
}

/// The texts joined with single spaces between them.
pub open spec fn join_spaced(ts: Seq<Seq<char>>) -> Seq<char>
    decreases ts.len(),
{
    if ts.len() == 0 {
        Seq::empty()
    } else if ts.len() == 1 {
        ts[0]
    } else {
        join_spaced(ts.drop_last()) + seq![' '] + ts.last()
    }
}

/// The first `n` texts (all where there are fewer) joined with single spaces.
pub fn join_first(ts: &Vec<String>, n: usize) -> (r: Vec<char>)
    ensures
        r@ == join_spaced(ts@.map_values(|s: String| s@).take(if n < ts@.len() { n as int } else { ts@.len() as int })),
{
    let m = if n < ts.len() { n } else { ts.len() };
    let ghost tv = ts@.map_values(|s: String| s@);
    let mut out: Vec<char> = Vec::new();
    let mut i: usize = 0;
    while i < m
        invariant
            m <= ts.len(),
            i <= m,
            tv == ts@.map_values(|s: String| s@),
            out@ == join_spaced(tv.take(i as int)),
        decreases m - i,
    {
        assert(tv.take(i + 1).drop_last() =~= tv.take(i as int));
        if i > 0 {
            out.push(' ');
        }
        let mut cs = chars_of(ts[i].as_str());
        out.append(&mut cs);
        assert(i == 0 ==> tv.take(1) =~= seq![tv[0]]);
        assert(out@ =~= join_spaced(tv.take(i + 1)));
        i = i + 1;
    }
    out
}

} // verus!
