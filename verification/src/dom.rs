//! The parsed document as the converters read it.
//!
//! scraper (html5ever) parses a page into a tree; this module holds that tree
//! as the list of its nodes in document order, each with its depth below the
//! document root. A node's subtree is the run of nodes after it that sit
//! deeper than it does, and its children are the maximal such runs one after
//! another, so every walk over the tree is a walk over positions.

use vstd::prelude::*;

use crate::text::{bytes_of, chars_vec, push_str, str_eq, trim, trim_str};

verus! {

/// What a node of the document is.
pub enum NodeKind {
    /// A run of text.
    Text(String),
    /// An element: its (lowercase) local name and its attributes.
    Element(String, Vec<(String, String)>),
    /// The document root, a comment, a doctype, or a processing instruction.
    Other,
}

/// One node of the document, with its depth below the document root.
pub struct RawNode {
    pub depth: usize,
    pub kind: NodeKind,
}

/// The nodes of the tree html5ever builds from `html`, as scraper holds it,
/// in document order starting with the document root: each node's depth (its
/// number of ancestors), and its text, or its element name and attributes.
pub uninterp spec fn parsed_nodes(html: Seq<char>) -> Seq<RawNode>;

/// Wraps `scraper::Html::parse_document`, walking the resulting tree in
/// document order (`descendants` of the root) and recording for each node its
/// ancestor count and kind. The contract claims only that the result is a
/// function of the input text.
#[verifier::external_body]
pub(crate) fn parse_html(html: &str) -> (r: Vec<RawNode>)
    ensures
        r@ == parsed_nodes(html@),
{
    let doc = scraper::Html::parse_document(html);
    doc.tree.root().descendants().map(|n| RawNode {
        depth: n.ancestors().count(),
        kind: match n.value() {
            scraper::Node::Text(t) => NodeKind::Text(t.text.to_string()),
            scraper::Node::Element(e) => NodeKind::Element(
                e.name().to_string(),
                e.attrs().map(|(k, v)| (k.to_string(), v.to_string())).collect(),
            ),
            _ => NodeKind::Other,
        },
    }).collect()
}

/// Parse an HTML document into its nodes, in document order.
pub fn parse_document(html: &str) -> (r: Vec<RawNode>)
    ensures
        r@ == parsed_nodes(html@),
{
    parse_html(html)
}

/// The first position at or after `k` whose depth is at most `d`, or the end.
pub open spec fn scan_end(s: Seq<RawNode>, d: usize, k: int) -> int
    decreases s.len() - k,
{
    if k < 0 || k >= s.len() || s[k].depth <= d {
        k
    } else {
        scan_end(s, d, k + 1)
    }
}

/// Where the subtree of the node at `j` ends: its descendants are exactly
/// the positions strictly between `j` and this.
pub open spec fn end_of(s: Seq<RawNode>, j: int) -> int {
    scan_end(s, s[j].depth, j + 1)
}

pub proof fn lemma_scan_end(s: Seq<RawNode>, d: usize, k: int)
    requires
        0 <= k <= s.len(),
    ensures
        k <= scan_end(s, d, k) <= s.len(),
        forall|m: int| k <= m < scan_end(s, d, k) ==> #[trigger] s[m].depth > d,
        scan_end(s, d, k) < s.len() ==> s[scan_end(s, d, k)].depth <= d,
    decreases s.len() - k,
{
    if k < s.len() && s[k].depth > d {
        lemma_scan_end(s, d, k + 1);
    }
}

/// A subtree ends after its root, and no later than the document.
pub proof fn lemma_end_of(s: Seq<RawNode>, j: int)
    requires
        0 <= j < s.len(),
    ensures
        j < end_of(s, j) <= s.len(),
        forall|m: int| j < m < end_of(s, j) ==> #[trigger] s[m].depth > s[j].depth,
{
    lemma_scan_end(s, s[j].depth, j + 1);
}

/// A node inside a subtree is deeper than the subtree's root, and its own
/// subtree ends no later.
pub proof fn lemma_end_nested(s: Seq<RawNode>, j: int, k: int)
    requires
        0 <= j < k < end_of(s, j),
        end_of(s, j) <= s.len(),
    ensures
        s[k].depth > s[j].depth,
        k < end_of(s, k) <= end_of(s, j),
{
    lemma_end_of(s, j);
    lemma_end_of(s, k);
    lemma_scan_end(s, s[k].depth, k + 1);
    let e = end_of(s, j);
    if e < end_of(s, k) {
        lemma_scan_end(s, s[j].depth, j + 1);
        assert(s[e].depth > s[k].depth);
    }
}

/// Where the subtree of the node at `j` ends.
pub fn subtree_end(nodes: &Vec<RawNode>, j: usize) -> (e: usize)
    requires
        j < nodes@.len(),
    ensures
        e == end_of(nodes@, j as int),
        j < e <= nodes@.len(),
{
    let n = nodes.len();
    let d = nodes[j].depth;
    let mut k = j + 1;
    while k < n && nodes[k].depth > d
        invariant
            j < k <= n,
            n == nodes@.len(),
            d == nodes@[j as int].depth,
            scan_end(nodes@, d, j + 1) == scan_end(nodes@, d, k as int),
        decreases n - k,
    {
        k += 1;
    }
    k
}

/// The text a node contributes: its own text if it is a text node.
pub open spec fn node_text(n: RawNode) -> Seq<char> {
    match n.kind {
        NodeKind::Text(t) => t@,
        _ => Seq::<char>::empty(),
    }
}

/// The text nodes of positions `from..to`, concatenated in order.
pub open spec fn texts_in(s: Seq<RawNode>, from: int, to: int) -> Seq<char>
    decreases to - from,
{
    if to <= from {
        Seq::<char>::empty()
    } else {
        texts_in(s, from, to - 1) + node_text(s[to - 1])
    }
}

/// All the text inside the element at `j`, as scraper's `ElementRef::text`
/// yields it: every descendant text node, in order.
pub open spec fn element_text(s: Seq<RawNode>, j: int) -> Seq<char> {
    texts_in(s, j + 1, end_of(s, j))
}

/// The text nodes of positions `from..to`, concatenated.
pub fn collect_text(nodes: &Vec<RawNode>, from: usize, to: usize) -> (r: String)
    requires
        from <= to <= nodes@.len(),
    ensures
        r@ == texts_in(nodes@, from as int, to as int),
{
    let mut out = String::new();
    let mut k = from;
    while k < to
        invariant
            from <= k <= to <= nodes@.len(),
            out@ == texts_in(nodes@, from as int, k as int),
        decreases to - k,
    {
        match &nodes[k].kind {
            NodeKind::Text(t) => push_str(&mut out, t.as_str()),
            _ => {
                assert(node_text(nodes@[k as int]) =~= Seq::<char>::empty());
            },
        }
        proof {
            assert(texts_in(nodes@, from as int, k + 1) == texts_in(nodes@, from as int, k as int)
                + node_text(nodes@[k as int]));
        }
        k += 1;
    }
    out
}

/// The value of the first attribute called `name`.
pub open spec fn attr_of(attrs: Seq<(String, String)>, name: Seq<char>) -> Option<Seq<char>>
    decreases attrs.len(),
{
    if attrs.len() == 0 {
        None
    } else if attrs[0].0@ == name {
        Some(attrs[0].1@)
    } else {
        attr_of(attrs.drop_first(), name)
    }
}

/// The value of an attribute of an element.
pub fn attr_value<'a>(attrs: &'a Vec<(String, String)>, name: &str) -> (r: Option<&'a str>)
    ensures
        crate::text::opt_str_chars(r) == attr_of(attrs@, name@),
{
    let mut i: usize = 0;
    assert(attrs@.skip(0) =~= attrs@);
    while i < attrs.len()
        invariant
            i <= attrs@.len(),
            attr_of(attrs@, name@) == attr_of(attrs@.skip(i as int), name@),
        decreases attrs.len() - i,
    {
        proof {
            assert(attrs@.skip(i as int).drop_first() =~= attrs@.skip(i + 1));
        }
        if str_eq(attrs[i].0.as_str(), name) {
            return Some(attrs[i].1.as_str());
        }
        i += 1;
    }
    None
}

/// The value of an attribute of a node, when it is an element.
pub open spec fn node_attr(n: RawNode, name: Seq<char>) -> Option<Seq<char>> {
    match n.kind {
        NodeKind::Element(_, attrs) => attr_of(attrs@, name),
        _ => None,
    }
}

/// The element name of a node, when it is an element.
pub open spec fn node_name(n: RawNode) -> Option<Seq<char>> {
    match n.kind {
        NodeKind::Element(name, _) => Some(name@),
        _ => None,
    }
}

/// A simple CSS selector: an optional element name, an optional attribute
/// (present, or equal to a value), and an optional class.
pub struct Sel {
    pub tag: Option<&'static str>,
    pub attr: Option<&'static str>,
    pub value: Option<&'static str>,
    pub class: Option<&'static str>,
}

/// ASCII whitespace, which separates the entries of a `class` attribute.
pub open spec fn ascii_ws(c: char) -> bool {
    c == ' ' || c == '\t' || c == '\n' || c == '\x0C' || c == '\r'
}

/// `c` appears in `v` at `i` as a whole whitespace-separated entry.
pub open spec fn class_at(v: Seq<char>, c: Seq<char>, i: int) -> bool {
    &&& 0 <= i
    &&& i + c.len() <= v.len()
    &&& v.subrange(i, i + c.len()) == c
    &&& (i == 0 || ascii_ws(v[i - 1]))
    &&& (i + c.len() == v.len() || ascii_ws(v[i + c.len()]))
}

/// A `class` attribute lists the class `c`.
pub open spec fn has_class(v: Seq<char>, c: Seq<char>) -> bool {
    exists|i: int| #[trigger] class_at(v, c, i)
}

/// Does a node match the selector? Only elements do; names, attribute
/// values and classes compare exactly.
pub open spec fn sel_matches(sel: Sel, n: RawNode) -> bool {
    match n.kind {
        NodeKind::Element(name, attrs) => {
            &&& (sel.tag matches Some(t) ==> name@ == t@)
            &&& (sel.attr matches Some(a) ==> (attr_of(attrs@, a@) is Some && (sel.value matches Some(
                v,
            ) ==> attr_of(attrs@, a@) == Some(v@))))
            &&& (sel.class matches Some(c) ==> (attr_of(attrs@, "class"@) matches Some(v) && has_class(
                v,
                c@,
            )))
        },
        _ => false,
    }
}

/// Does the class list `v` hold the entry `c`?
fn class_listed(v: &str, c: &str) -> (r: bool)
    ensures
        r == has_class(v@, c@),
{
    let vv = chars_vec(v);
    let cv = chars_vec(c);
    let n = vv.len();
    let m = cv.len();
    if m > n {
        assert forall|i: int| !class_at(v@, c@, i) by {}
        return false;
    }
    let mut i: usize = 0;
    while i <= n - m
        invariant
            vv@ == v@,
            cv@ == c@,
            n == v@.len(),
            m == c@.len(),
            m <= n,
            i <= n - m + 1,
            forall|k: int| 0 <= k < i ==> !class_at(v@, c@, k),
        decreases n - m + 1 - i,
    {
        let before_ok = if i == 0 {
            true
        } else {
            is_ascii_ws(vv[i - 1])
        };
        let after_ok = if i + m == n {
            true
        } else {
            is_ascii_ws(vv[i + m])
        };
        if before_ok && after_ok {
            let mut k: usize = 0;
            let mut same = true;
            while k < m
                invariant
                    vv@ == v@,
                    cv@ == c@,
                    i + m <= n == v@.len(),
                    m == c@.len(),
                    k <= m,
                    same == (forall|t: int| 0 <= t < k ==> v@[i + t] == c@[t]),
                decreases m - k,
            {
                if vv[i + k] != cv[k] {
                    same = false;
                }
                k += 1;
            }
            if same {
                assert(v@.subrange(i as int, i + m) =~= c@);
                assert(i == 0 || ascii_ws(v@[i - 1]));
                assert(i + m == n || ascii_ws(v@[i + m]));
                assert(class_at(v@, c@, i as int));
                return true;
            }
            proof {
                let t = choose|t: int| 0 <= t < m && v@[i + t] != c@[t];
                assert(v@.subrange(i as int, i + m)[t] != c@[t]);
            }
        }
        if i == n - m {
            assert forall|k: int| !class_at(v@, c@, k) by {
                if 0 <= k && k <= i {
                } 
            }
            return false;
        }
        i += 1;
    }
    false
}

fn is_ascii_ws(c: char) -> (r: bool)
    ensures
        r == ascii_ws(c),
{
    c == ' ' || c == '\t' || c == '\n' || c == '\x0C' || c == '\r'
}

/// Does the node at `k` match the selector?
pub fn matches_sel(nodes: &Vec<RawNode>, k: usize, sel: &Sel) -> (r: bool)
    requires
        k < nodes@.len(),
    ensures
        r == sel_matches(*sel, nodes@[k as int]),
{
    match &nodes[k].kind {
        NodeKind::Element(name, attrs) => {
            if let Some(t) = sel.tag {
                if !str_eq(name.as_str(), t) {
                    return false;
                }
            }
            if let Some(a) = sel.attr {
                match attr_value(attrs, a) {
                    None => {
                        return false;
                    },
                    Some(found) => {
                        if let Some(v) = sel.value {
                            if !str_eq(found, v) {
                                return false;
                            }
                        }
                    },
                }
            }
            if let Some(c) = sel.class {
                match attr_value(attrs, "class") {
                    None => {
                        return false;
                    },
                    Some(list) => {
                        return class_listed(list, c);
                    },
                }
            }
            true
        },
        _ => false,
    }
}

/// The first position in `from..to` whose node matches the selector.
pub open spec fn first_match(s: Seq<RawNode>, sel: Sel, from: int, to: int) -> Option<int>
    decreases to - from,
{
    if from < 0 || from >= to || from >= s.len() {
        None
    } else if sel_matches(sel, s[from]) {
        Some(from)
    } else {
        first_match(s, sel, from + 1, to)
    }
}

pub proof fn lemma_first_match(s: Seq<RawNode>, sel: Sel, from: int, to: int)
    requires
        0 <= from,
    ensures
        first_match(s, sel, from, to) matches Some(k) ==> from <= k < to && k < s.len()
            && sel_matches(sel, s[k]),
    decreases to - from,
{
    if from < to && from < s.len() && !sel_matches(sel, s[from]) {
        lemma_first_match(s, sel, from + 1, to);
    }
}

/// The first position in `from..to` whose node matches the selector.
pub fn find_first(nodes: &Vec<RawNode>, sel: &Sel, from: usize, to: usize) -> (r: Option<usize>)
    requires
        to <= nodes@.len(),
    ensures
        r matches Some(k) ==> first_match(nodes@, *sel, from as int, to as int) == Some(k as int),
        r is None ==> first_match(nodes@, *sel, from as int, to as int) is None,
        r matches Some(k) ==> from <= k < to,
{
    let mut k = from;
    while k < to
        invariant
            from <= k,
            to <= nodes@.len(),
            first_match(nodes@, *sel, from as int, to as int) == first_match(
                nodes@,
                *sel,
                k as int,
                to as int,
            ),
        decreases to - k,
    {
        if matches_sel(nodes, k, sel) {
            return Some(k);
        }
        k += 1;
    }
    None
}

/// A selector naming an element.
pub fn tag(name: &'static str) -> (r: Sel)
    ensures
        r.tag == Some(name),
        r.attr is None,
        r.value is None,
        r.class is None,
{
    Sel { tag: Some(name), attr: None, value: None, class: None }
}

} // verus!
