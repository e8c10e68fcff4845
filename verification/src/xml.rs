//! A plain model of a parsed XML document and the queries the project
//! parser asks of it.
//!
//! The document is a list of nodes in document order (node 0 is the
//! document root). Each node records whether it is an element, its local
//! name, its attributes in order, the index of its parent, and the number of
//! nodes in its subtree (itself included), so that the subtree of node `i`
//! is the index range `i .. i + subtree_len`. Its children are found by
//! walking that range from `i + 1`, skipping over each child's own subtree.

use vstd::prelude::*;

use crate::seqs::views;
use crate::text::str_equals;

verus! {

/// One node of a parsed document.
#[derive(Debug, Clone)]
pub struct XmlNode {
    pub element: bool,
    pub name: String,
    pub attributes: Vec<(String, String)>,
    pub parent: Option<usize>,
    pub subtree_len: usize,
}

/// The mathematical form of a node.
pub struct XmlNodeModel {
    pub element: bool,
    pub name: Seq<char>,
    pub attributes: Seq<(Seq<char>, Seq<char>)>,
    pub parent: Option<usize>,
    pub subtree_len: nat,
}

impl View for XmlNode {
    type V = XmlNodeModel;

    open spec fn view(&self) -> XmlNodeModel {
        XmlNodeModel {
            element: self.element,
            name: self.name@,
            attributes: self.attributes@.map_values(|a: (String, String)| (a.0@, a.1@)),
            parent: self.parent,
            subtree_len: self.subtree_len as nat,
        }
    }
}

/// The model of a node list.
pub open spec fn nodes_view(v: Seq<XmlNode>) -> Seq<XmlNodeModel> {
    views(v)
}

/// What `roxmltree::Document::parse` makes of `text`: the node list in
/// document order, or the parser's error message.
pub uninterp spec fn xml_parse_result(text: Seq<char>) -> Result<Seq<XmlNodeModel>, Seq<char>>;

/// Parses `text` with `roxmltree::Document::parse` and lists its nodes in
/// document order (`Document::descendants`), each with its element flag, local
/// tag name, attributes (local name and value), parent id and
/// `descendants().len()`. On failure returns the parser's error message. The
/// contract claims that the result is the named value for `text`, and that
/// the subtrees nest: node ids are document order, so the descendants of a
/// node are the ids right after it, and each subtree lies within those of
/// its ancestors.
#[verifier::external_body]
pub(crate) fn parse_xml(text: &str) -> (r: Result<Vec<XmlNode>, String>)
    ensures
        match r {
            Ok(v) => xml_parse_result(text@) == Ok::<Seq<XmlNodeModel>, Seq<char>>(nodes_view(v@)),
            Err(m) => xml_parse_result(text@) == Err::<Seq<XmlNodeModel>, Seq<char>>(m@),
        },
        r matches Ok(v) ==> nested(nodes_view(v@)),
{
    let doc = roxmltree::Document::parse(text).map_err(|e| e.to_string())?;
    Ok(doc.descendants().map(|n| XmlNode {
        element: n.is_element(),
        name: n.tag_name().name().to_string(),
        attributes: n.attributes().map(|a| (a.name().to_string(), a.value().to_string())).collect(),
        parent: n.parent().map(|p| p.id().get_usize()),
        subtree_len: n.descendants().len(),
    }).collect())
}

// ----- Tree structure ---------------------------------------------------------

/// Number of indices the subtree of `j` spans (at least one).
pub open spec fn step(t: Seq<XmlNodeModel>, j: int) -> int {
    if t[j].subtree_len >= 1 {
        t[j].subtree_len as int
    } else {
        1
    }
}

/// One past the last index of the subtree of `i`.
pub open spec fn node_end(t: Seq<XmlNodeModel>, i: int) -> int {
    if i + step(t, i) <= t.len() {
        i + step(t, i)
    } else {
        t.len() as int
    }
}

/// The sibling after `j`: the first index past its subtree, capped at `e`.
pub open spec fn next_sibling(t: Seq<XmlNodeModel>, e: int, j: int) -> int {
    if j + step(t, j) < e {
        j + step(t, j)
    } else {
        e
    }
}

/// Whether `k` is an element with local name `name`.
pub open spec fn is_named(t: Seq<XmlNodeModel>, k: int, name: Seq<char>) -> bool {
    0 <= k < t.len() && t[k].element && t[k].name == name
}

/// The first element named `name` among the siblings starting at `j` and
/// ending before `e`.
pub open spec fn named_from(t: Seq<XmlNodeModel>, e: int, j: int, name: Seq<char>) -> Option<int>
    decreases e - j,
{
    if j < 0 || j >= e || j >= t.len() {
        None
    } else if is_named(t, j, name) {
        Some(j)
    } else {
        named_from(t, e, next_sibling(t, e, j), name)
    }
}

/// The first child element of `i` named `name` (`children().find(..)`).
pub open spec fn child(t: Seq<XmlNodeModel>, i: int, name: Seq<char>) -> Option<int> {
    named_from(t, node_end(t, i), i + 1, name)
}

/// The first element among the siblings starting at `j`, ending before `e`.
pub open spec fn element_from(t: Seq<XmlNodeModel>, e: int, j: int) -> Option<int>
    decreases e - j,
{
    if j < 0 || j >= e || j >= t.len() {
        None
    } else if t[j].element {
        Some(j)
    } else {
        element_from(t, e, next_sibling(t, e, j))
    }
}

/// The root element of the document: the first element child of node 0.
pub open spec fn root_element(t: Seq<XmlNodeModel>) -> Option<int> {
    if t.len() == 0 {
        None
    } else {
        element_from(t, node_end(t, 0), 1)
    }
}

/// The value of the first attribute named `key` in `attrs`, from index `k`.
pub open spec fn attr_from(attrs: Seq<(Seq<char>, Seq<char>)>, key: Seq<char>, k: int) -> Option<
    Seq<char>,
>
    decreases attrs.len() - k,
{
    if k < 0 || k >= attrs.len() {
        None
    } else if attrs[k].0 == key {
        Some(attrs[k].1)
    } else {
        attr_from(attrs, key, k + 1)
    }
}

/// The value of attribute `key` of node `i` (`Node::attribute`).
pub open spec fn attr(t: Seq<XmlNodeModel>, i: int, key: Seq<char>) -> Option<Seq<char>> {
    if 0 <= i < t.len() {
        attr_from(t[i].attributes, key, 0)
    } else {
        None
    }
}

/// The `attr` attribute of the first child of `i` named `child_name`.
pub open spec fn child_value_attr(
    t: Seq<XmlNodeModel>,
    i: int,
    child_name: Seq<char>,
    attr_name: Seq<char>,
) -> Option<Seq<char>> {
    match child(t, i, child_name) {
        Some(c) => attr(t, c, attr_name),
        None => None,
    }
}

/// The first node at or after `j`, before `e`, that is an element named `name`
/// (`descendants().find(|n| n.has_tag_name(name))` over `j..e`).
pub open spec fn first_named_in(t: Seq<XmlNodeModel>, e: int, j: int, name: Seq<char>) -> Option<
    int,
>
    decreases e - j,
{
    if j < 0 || j >= e || j >= t.len() {
        None
    } else if is_named(t, j, name) {
        Some(j)
    } else {
        first_named_in(t, e, j + 1, name)
    }
}

pub proof fn lemma_named_from_bounds(t: Seq<XmlNodeModel>, e: int, j: int, name: Seq<char>)
    ensures
        named_from(t, e, j, name) matches Some(k) ==> j <= k < e && is_named(t, k, name),
    decreases e - j,
{
    if 0 <= j < e && j < t.len() && !is_named(t, j, name) {
        lemma_named_from_bounds(t, e, next_sibling(t, e, j), name);
    }
}

pub proof fn lemma_first_named_in_bounds(t: Seq<XmlNodeModel>, e: int, j: int, name: Seq<char>)
    ensures
        first_named_in(t, e, j, name) matches Some(k) ==> j <= k < e && is_named(t, k, name),
    decreases e - j,
{
    if 0 <= j < e && j < t.len() && !is_named(t, j, name) {
        lemma_first_named_in_bounds(t, e, j + 1, name);
    }
}

pub proof fn lemma_element_from_bounds(t: Seq<XmlNodeModel>, e: int, j: int)
    ensures
        element_from(t, e, j) matches Some(k) ==> j <= k < e && 0 <= k < t.len(),
    decreases e - j,
{
    if 0 <= j < e && j < t.len() && !t[j].element {
        lemma_element_from_bounds(t, e, next_sibling(t, e, j));
    }
}

/// Whether every subtree lies within the subtree of each of its ancestors,
/// as it does for any document the parser produces.
pub open spec fn nested(t: Seq<XmlNodeModel>) -> bool {
    forall|i: int, c: int|
        #![trigger node_end(t, i), node_end(t, c)]
        0 <= i < c < node_end(t, i) ==> node_end(t, c) <= node_end(t, i)
}

/// A child lies strictly inside the subtree of its parent.
pub proof fn lemma_child_inside(t: Seq<XmlNodeModel>, i: int, name: Seq<char>)
    requires
        0 <= i < t.len(),
    ensures
        child(t, i, name) matches Some(c) ==> i < c < node_end(t, i) && is_named(t, c, name),
{
    lemma_named_from_bounds(t, node_end(t, i), i + 1, name);
}

// ----- Executable queries -----------------------------------------------------

/// `step` of node `j`.
pub fn step_of(nodes: &Vec<XmlNode>, j: usize) -> (r: usize)
    requires
        j < nodes@.len(),
    ensures
        r as int == step(nodes_view(nodes@), j as int),
        r >= 1,
{
    let s = nodes[j].subtree_len;
    if s >= 1 {
        s
    } else {
        1
    }
}

/// The sibling after `j` (`next_sibling`).
pub fn next_of(nodes: &Vec<XmlNode>, e: usize, j: usize) -> (r: usize)
    requires
        j < e <= nodes@.len(),
    ensures
        r as int == next_sibling(nodes_view(nodes@), e as int, j as int),
        j < r <= e,
{
    let s = step_of(nodes, j);
    if s < e - j {
        j + s
    } else {
        e
    }
}

/// `node_end` of node `i`.
pub fn end_of(nodes: &Vec<XmlNode>, i: usize) -> (r: usize)
    requires
        i < nodes@.len(),
    ensures
        r as int == node_end(nodes_view(nodes@), i as int),
        i < r <= nodes@.len(),
{
    let s = step_of(nodes, i);
    if s <= nodes.len() - i {
        i + s
    } else {
        nodes.len()
    }
}

/// Whether node `k` is an element named `name`.
pub fn named(nodes: &Vec<XmlNode>, k: usize, name: &str) -> (r: bool)
    requires
        k < nodes@.len(),
    ensures
        r == is_named(nodes_view(nodes@), k as int, name@),
{
    nodes[k].element && str_equals(nodes[k].name.as_str(), name)
}

/// The first child element of `i` named `name`.
pub fn find_child(nodes: &Vec<XmlNode>, i: usize, name: &str) -> (r: Option<usize>)
    requires
        i < nodes@.len(),
    ensures
        match r {
            Some(k) => child(nodes_view(nodes@), i as int, name@) == Some(k as int) && k
                < nodes@.len(),
            None => child(nodes_view(nodes@), i as int, name@) is None,
        },
{
    let ghost t = nodes_view(nodes@);
    let e = end_of(nodes, i);
    let mut j = i + 1;
    while j < e
        invariant
            t == nodes_view(nodes@),
            e as int == node_end(t, i as int),
            e <= nodes@.len(),
            i < j,
            named_from(t, e as int, j as int, name@) == child(t, i as int, name@),
        decreases e - j,
    {
        if named(nodes, j, name) {
            return Some(j);
        }
        let s = step_of(nodes, j);
        if s > e - j {
            j = e;
        } else {
            j = j + s;
        }
    }
    None
}

/// The root element of the document.
pub fn find_root_element(nodes: &Vec<XmlNode>) -> (r: Option<usize>)
    ensures
        match r {
            Some(k) => root_element(nodes_view(nodes@)) == Some(k as int) && k < nodes@.len(),
            None => root_element(nodes_view(nodes@)) is None,
        },
{
    let ghost t = nodes_view(nodes@);
    if nodes.len() == 0 {
        return None;
    }
    let e = end_of(nodes, 0);
    let mut j: usize = 1;
    while j < e
        invariant
            t == nodes_view(nodes@),
            e as int == node_end(t, 0),
            e <= nodes@.len(),
            nodes@.len() > 0,
            element_from(t, e as int, j as int) == root_element(t),
        decreases e - j,
    {
        if nodes[j].element {
            return Some(j);
        }
        let s = step_of(nodes, j);
        if s > e - j {
            j = e;
        } else {
            j = j + s;
        }
    }
    None
}

/// The value of attribute `key` of node `i`.
pub fn attribute(nodes: &Vec<XmlNode>, i: usize, key: &str) -> (r: Option<String>)
    requires
        i < nodes@.len(),
    ensures
        match r {
            Some(v) => attr(nodes_view(nodes@), i as int, key@) == Some(v@),
            None => attr(nodes_view(nodes@), i as int, key@) is None,
        },
{
    let ghost t = nodes_view(nodes@);
    let attrs = &nodes[i].attributes;
    let ghost am = t[i as int].attributes;
    assert(am == attrs@.map_values(|a: (String, String)| (a.0@, a.1@)));
    let mut k: usize = 0;
    while k < attrs.len()
        invariant
            t == nodes_view(nodes@),
            i < nodes@.len(),
            am == t[i as int].attributes,
            attrs == nodes@[i as int].attributes,
            am == attrs@.map_values(|a: (String, String)| (a.0@, a.1@)),
            am.len() == attrs@.len(),
            k <= attrs@.len(),
            attr_from(am, key@, k as int) == attr_from(am, key@, 0),
        decreases attrs@.len() - k,
    {
        assert(am[k as int] == (attrs@[k as int].0@, attrs@[k as int].1@));
        if str_equals(attrs[k].0.as_str(), key) {
            let v = attrs[k].1.clone();
            assert(attr_from(am, key@, k as int) == Some(v@));
            assert(am == t[i as int].attributes);
            return Some(v);
        }
        k = k + 1;
    }
    None
}

/// The `attr_name` attribute of the first child of `i` named `child_name`.
pub fn find_child_value_attr(nodes: &Vec<XmlNode>, i: usize, child_name: &str, attr_name: &str) -> (r:
    Option<String>)
    requires
        i < nodes@.len(),
    ensures
        match r {
            Some(v) => child_value_attr(nodes_view(nodes@), i as int, child_name@, attr_name@)
                == Some(v@),
            None => child_value_attr(nodes_view(nodes@), i as int, child_name@, attr_name@) is None,
        },
{
    match find_child(nodes, i, child_name) {
        Some(c) => attribute(nodes, c, attr_name),
        None => None,
    }
}

/// The first element named `name` in the subtree of `i` (`i` included).
pub fn find_descendant(nodes: &Vec<XmlNode>, i: usize, name: &str) -> (r: Option<usize>)
    requires
        i < nodes@.len(),
    ensures
        match r {
            Some(k) => first_named_in(nodes_view(nodes@), node_end(nodes_view(nodes@), i as int), i as int, name@)
                == Some(k as int) && k < nodes@.len(),
            None => first_named_in(nodes_view(nodes@), node_end(nodes_view(nodes@), i as int), i as int, name@) is None,
        },
{
    let ghost t = nodes_view(nodes@);
    let e = end_of(nodes, i);
    let mut j = i;
    while j < e
        invariant
            t == nodes_view(nodes@),
            e as int == node_end(t, i as int),
            e <= nodes@.len(),
            i <= j,
            first_named_in(t, e as int, j as int, name@) == first_named_in(t, e as int, i as int, name@),
        decreases e - j,
    {
        if named(nodes, j, name) {
            return Some(j);
        }
        j = j + 1;
    }
    None
}

} // verus!
