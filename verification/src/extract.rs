//! Where a page's content lives, and what it says about itself: the content
//! root the converters walk, the title, and citation metadata.

use vstd::prelude::*;

use crate::charset::{bare_label, bare_text, content_type_charset, from_content_type, is_known_label, known_label};
use crate::dom::{attr_value, collect_text, element_text, end_of, find_first, first_match, lemma_first_match, node_attr, node_name, subtree_end, tag, NodeKind, RawNode, Sel};
use crate::text::{bytes_of, opt_chars, opt_str_chars, owned, trim, trim_str};
use crate::types::Metadata;

verus! {

/// How much text a node carries: the byte length of its trimmed text.
pub open spec fn node_weight(n: RawNode) -> int {
    match n.kind {
        NodeKind::Text(t) => bytes_of(trim(t@)).len() as int,
        _ => 0,
    }
}

/// The text weight of positions `from..to`.
pub open spec fn weight_in(s: Seq<RawNode>, from: int, to: int) -> int
    decreases to - from,
{
    if to <= from {
        0
    } else {
        weight_in(s, from, to - 1) + node_weight(s[to - 1])
    }
}

proof fn lemma_weight_split(s: Seq<RawNode>, a: int, b: int, c: int)
    requires
        a <= b <= c,
    ensures
        weight_in(s, a, c) == weight_in(s, a, b) + weight_in(s, b, c),
    decreases c - b,
{
    if b < c {
        lemma_weight_split(s, a, b, c - 1);
    }
}

proof fn lemma_weight_nonneg(s: Seq<RawNode>, a: int, b: int)
    ensures
        weight_in(s, a, b) >= 0,
    decreases b - a,
{
    if a < b {
        lemma_weight_nonneg(s, a, b - 1);
    }
}

/// The trimmed text length of everything inside the element at `k`.
pub open spec fn div_weight(s: Seq<RawNode>, k: int) -> int {
    weight_in(s, k, end_of(s, k))
}

/// The first `<div>` with the most text, scanning from `k` with the best so
/// far; a later `<div>` replaces it only with strictly more text.
pub open spec fn best_div(s: Seq<RawNode>, k: int, best: Option<(int, int)>) -> Option<(int, int)>
    decreases s.len() - k,
{
    if k < 0 || k >= s.len() {
        best
    } else {
        let nb = if node_name(s[k]) == Some("div"@) {
            let w = div_weight(s, k);
            match best {
                None => Some((k, w)),
                Some(b) => if w > b.1 {
                    Some((k, w))
                } else {
                    best
                },
            }
        } else {
            best
        };
        best_div(s, k + 1, nb)
    }
}

pub open spec fn sel_tag(t: &'static str) -> Sel {
    Sel { tag: Some(t), attr: None, value: None, class: None }
}

/// The element most likely to hold the page's primary content: the first
/// `<article>`, else the first `<main>`, else the first element with
/// `role="main"`, else the `<div>` with the most text if it has any, else
/// `<body>`.
pub open spec fn content_root_of(s: Seq<RawNode>) -> Option<int> {
    let n = s.len() as int;
    let role = Sel { tag: None, attr: Some("role"), value: Some("main"), class: None };
    if first_match(s, sel_tag("article"), 0, n) is Some {
        first_match(s, sel_tag("article"), 0, n)
    } else if first_match(s, sel_tag("main"), 0, n) is Some {
        first_match(s, sel_tag("main"), 0, n)
    } else if first_match(s, role, 0, n) is Some {
        first_match(s, role, 0, n)
    } else {
        match best_div(s, 0, None) {
            Some(b) if b.1 > 0 => Some(b.0),
            _ => first_match(s, sel_tag("body"), 0, n),
        }
    }
}

/// Text weight of one node.
fn weight_of(node: &RawNode) -> (w: usize)
    ensures
        w == node_weight(*node),
{
    match &node.kind {
        NodeKind::Text(t) => {
            let trimmed = trim_str(t.as_str());
            trimmed.as_str().as_bytes().len()
        },
        _ => 0,
    }
}

/// The largest-text `<div>` and its weight.
fn largest_div(nodes: &Vec<RawNode>) -> (r: Option<(usize, u128)>)
    ensures
        match best_div(nodes@, 0, None) {
            None => r is None,
            Some(b) => r matches Some(x) && x.0 == b.0 && x.1 == b.1,
        },
{
    let n = nodes.len();
    let mut prefix: Vec<u128> = Vec::new();
    prefix.push(0);
    let mut k: usize = 0;
    while k < n
        invariant
            n == nodes@.len(),
            k <= n,
            prefix@.len() == k + 1,
            forall|i: int| 0 <= i <= k ==> #[trigger] prefix@[i] == weight_in(nodes@, 0, i),
            forall|i: int| 0 <= i <= k ==> #[trigger] prefix@[i] <= i * 0xffff_ffff_ffff_ffffu128,
        decreases n - k,
    {
        let w = weight_of(&nodes[k]);
        let last = prefix[k];
        proof {
            assert(last <= k * 0xffff_ffff_ffff_ffffu128);
            assert((k + 1) * 0xffff_ffff_ffff_ffffu128 <= 0xffff_ffff_ffff_ffff_ffff_ffff_ffff_ffffu128)
                by (nonlinear_arith)
                requires
                    k < 0xffff_ffff_ffff_ffffu128,
            ;
        }
        prefix.push(last + w as u128);
        k += 1;
    }
    let mut best: Option<(usize, u128)> = None;
    let ghost mut gbest: Option<(int, int)> = None;
    let mut j: usize = 0;
    while j < n
        invariant
            n == nodes@.len(),
            j <= n,
            prefix@.len() == n + 1,
            forall|i: int| 0 <= i <= n ==> #[trigger] prefix@[i] == weight_in(nodes@, 0, i),
            best_div(nodes@, 0, None) == best_div(nodes@, j as int, gbest),
            match gbest {
                None => best is None,
                Some(b) => best matches Some(x) && x.0 == b.0 && x.1 == b.1,
            },
        decreases n - j,
    {
        let is_div = match &nodes[j].kind {
            NodeKind::Element(name, _) => crate::text::str_eq(name.as_str(), "div"),
            _ => false,
        };
        if is_div {
            let e = subtree_end(nodes, j);
            proof {
                lemma_weight_split(nodes@, 0, j as int, e as int);
                lemma_weight_nonneg(nodes@, j as int, e as int);
            }
            let w = prefix[e] - prefix[j];
            let replace = match best {
                None => true,
                Some((_, bw)) => w > bw,
            };
            if replace {
                best = Some((j, w));
                proof {
                    gbest = Some((j as int, w as int));
                }
            }
        }
        j += 1;
    }
    best
}

/// Pick the element most likely to contain the primary article content.
pub fn content_root(nodes: &Vec<RawNode>) -> (r: Option<usize>)
    ensures
        r matches Some(k) ==> content_root_of(nodes@) == Some(k as int) && k < nodes@.len(),
        r is None ==> content_root_of(nodes@) is None,
{
    let n = nodes.len();
    let article = tag("article");
    if let Some(k) = find_first(nodes, &article, 0, n) {
        return Some(k);
    }
    let main = tag("main");
    if let Some(k) = find_first(nodes, &main, 0, n) {
        return Some(k);
    }
    let role = Sel { tag: None, attr: Some("role"), value: Some("main"), class: None };
    if let Some(k) = find_first(nodes, &role, 0, n) {
        return Some(k);
    }
    if let Some((k, w)) = largest_div(nodes) {
        if w > 0 {
            proof {
                lemma_best_div_range(nodes@, 0, None);
            }
            return Some(k);
        }
    }
    let body = tag("body");
    find_first(nodes, &body, 0, n)
}

proof fn lemma_best_div_range(s: Seq<RawNode>, k: int, best: Option<(int, int)>)
    requires
        0 <= k,
        best matches Some(b) ==> 0 <= b.0 < s.len(),
    ensures
        best_div(s, k, best) matches Some(b) ==> 0 <= b.0 < s.len(),
    decreases s.len() - k,
{
    if k < s.len() {
        let nb = if node_name(s[k]) == Some("div"@) {
            let w = div_weight(s, k);
            match best {
                None => Some((k, w)),
                Some(b) => if w > b.1 {
                    Some((k, w))
                } else {
                    best
                },
            }
        } else {
            best
        };
        lemma_best_div_range(s, k + 1, nb);
    }
}

/// The page title: the trimmed text of the first `<title>`, or failing that
/// of the first `<h1>`; empty when neither has any.
pub open spec fn title_of(s: Seq<RawNode>) -> Seq<char> {
    let n = s.len() as int;
    let t1 = match first_match(s, sel_tag("title"), 0, n) {
        Some(k) => trim(element_text(s, k)),
        None => Seq::<char>::empty(),
    };
    let t2 = match first_match(s, sel_tag("h1"), 0, n) {
        Some(k) => trim(element_text(s, k)),
        None => Seq::<char>::empty(),
    };
    if t1.len() > 0 {
        t1
    } else {
        t2
    }
}

/// The trimmed text of the first element matching `sel`, or empty.
fn first_text(nodes: &Vec<RawNode>, sel: &Sel) -> (r: String)
    ensures
        r@ == match first_match(nodes@, *sel, 0, nodes@.len() as int) {
            Some(k) => trim(element_text(nodes@, k)),
            None => Seq::<char>::empty(),
        },
{
    match find_first(nodes, sel, 0, nodes.len()) {
        Some(k) => {
            let e = subtree_end(nodes, k);
            let t = collect_text(nodes, k + 1, e);
            trim_str(t.as_str())
        },
        None => String::new(),
    }
}

/// Extract the page title from `<title>` or the first `<h1>`.
pub fn extract_title(nodes: &Vec<RawNode>) -> (r: String)
    ensures
        r@ == title_of(nodes@),
{
    let t = first_text(nodes, &tag("title"));
    if !t.as_str().is_empty() {
        return t;
    }
    first_text(nodes, &tag("h1"))
}

/// The trimmed `content` of the first element matching `sel`, if non-empty.
pub open spec fn meta_value(s: Seq<RawNode>, sel: Sel) -> Option<Seq<char>> {
    match first_match(s, sel, 0, s.len() as int) {
        Some(k) => match node_attr(s[k], "content"@) {
            Some(c) => if trim(c).len() > 0 {
                Some(trim(c))
            } else {
                None
            },
            None => None,
        },
        None => None,
    }
}

/// The first of two selectors that yields a value.
pub open spec fn meta_either(s: Seq<RawNode>, a: Sel, b: Sel) -> Option<Seq<char>> {
    if meta_value(s, a) is Some {
        meta_value(s, a)
    } else {
        meta_value(s, b)
    }
}

pub open spec fn meta_sel(attr: &'static str, value: &'static str) -> Sel {
    Sel { tag: Some("meta"), attr: Some(attr), value: Some(value), class: None }
}

/// The trimmed `lang` of the first `<html>` element, if non-empty.
pub open spec fn lang_of(s: Seq<RawNode>) -> Option<Seq<char>> {
    match first_match(s, sel_tag("html"), 0, s.len() as int) {
        Some(k) => match node_attr(s[k], "lang"@) {
            Some(l) => if trim(l).len() > 0 {
                Some(trim(l))
            } else {
                None
            },
            None => None,
        },
        None => None,
    }
}

fn node_attr_value<'a>(nodes: &'a Vec<RawNode>, k: usize, name: &str) -> (r: Option<&'a str>)
    requires
        k < nodes@.len(),
    ensures
        opt_str_chars(r) == node_attr(nodes@[k as int], name@),
{
    match &nodes[k].kind {
        NodeKind::Element(_, attrs) => attr_value(attrs, name),
        _ => None,
    }
}

fn trimmed_attr(nodes: &Vec<RawNode>, sel: &Sel, attr: &str) -> (r: Option<String>)
    ensures
        opt_chars(r) == match first_match(nodes@, *sel, 0, nodes@.len() as int) {
            Some(k) => match node_attr(nodes@[k], attr@) {
                Some(c) => if trim(c).len() > 0 {
                    Some(trim(c))
                } else {
                    None
                },
                None => None,
            },
            None => None,
        },
{
    proof {
        lemma_first_match(nodes@, *sel, 0, nodes@.len() as int);
    }
    match find_first(nodes, sel, 0, nodes.len()) {
        Some(k) => match node_attr_value(nodes, k, attr) {
            Some(c) => {
                let t = trim_str(c);
                if t.as_str().is_empty() {
                    None
                } else {
                    Some(t)
                }
            },
            None => None,
        },
        None => None,
    }
}

fn meta(nodes: &Vec<RawNode>, a: &Sel, b: Option<&Sel>) -> (r: Option<String>)
    ensures
        opt_chars(r) == match b {
            Some(b) => meta_either(nodes@, *a, *b),
            None => meta_value(nodes@, *a),
        },
{
    let first = trimmed_attr(nodes, a, "content");
    if first.is_some() {
        return first;
    }
    match b {
        Some(b) => trimmed_attr(nodes, b, "content"),
        None => None,
    }
}

/// Extract citation-oriented metadata: description, author, publish date,
/// language, and site name, from standard `<meta>` and OpenGraph tags.
pub fn extract_metadata(nodes: &Vec<RawNode>) -> (r: Metadata)
    ensures
        opt_chars(r.description) == meta_either(
            nodes@,
            meta_sel("name", "description"),
            meta_sel("property", "og:description"),
        ),
        opt_chars(r.author) == meta_either(
            nodes@,
            meta_sel("name", "author"),
            meta_sel("property", "article:author"),
        ),
        opt_chars(r.published) == meta_either(
            nodes@,
            meta_sel("property", "article:published_time"),
            meta_sel("name", "date"),
        ),
        opt_chars(r.site_name) == meta_value(nodes@, meta_sel("property", "og:site_name")),
        opt_chars(r.lang) == lang_of(nodes@),
        r.charset is None,
{
    let description = meta(
        nodes,
        &Sel { tag: Some("meta"), attr: Some("name"), value: Some("description"), class: None },
        Some(
            &Sel {
                tag: Some("meta"),
                attr: Some("property"),
                value: Some("og:description"),
                class: None,
            },
        ),
    );
    let author = meta(
        nodes,
        &Sel { tag: Some("meta"), attr: Some("name"), value: Some("author"), class: None },
        Some(
            &Sel {
                tag: Some("meta"),
                attr: Some("property"),
                value: Some("article:author"),
                class: None,
            },
        ),
    );
    let published = meta(
        nodes,
        &Sel {
            tag: Some("meta"),
            attr: Some("property"),
            value: Some("article:published_time"),
            class: None,
        },
        Some(&Sel { tag: Some("meta"), attr: Some("name"), value: Some("date"), class: None }),
    );
    let site_name = meta(
        nodes,
        &Sel { tag: Some("meta"), attr: Some("property"), value: Some("og:site_name"), class: None },
        None,
    );
    let lang = trimmed_attr(nodes, &tag("html"), "lang");
    Metadata { description, author, published, lang, site_name, charset: None }
}

/// The charset a page declares: from the header if it names one, else the
/// first `<meta charset>`, as written.
pub open spec fn declared_charset(header: Option<Seq<char>>, s: Seq<RawNode>) -> Option<Seq<char>> {
    let from_header = match header {
        Some(h) => content_type_charset(h),
        None => None,
    };
    if from_header is Some {
        from_header
    } else {
        match first_match(
            s,
            Sel { tag: Some("meta"), attr: Some("charset"), value: None, class: None },
            0,
            s.len() as int,
        ) {
            Some(k) => node_attr(s[k], "charset"@),
            None => None,
        }
    }
}

/// A declared charset that no encoding recognizes, as labelled (without
/// surrounding whitespace and quotes). Every label of the Encoding Standard
/// names an encoding that decodes exactly, so none of those is reported.
pub open spec fn undecodable_of(header: Option<Seq<char>>, s: Seq<RawNode>) -> Option<Seq<char>> {
    match declared_charset(header, s) {
        Some(label) => if known_label(label) {
            None
        } else {
            Some(bare_label(label))
        },
        None => None,
    }
}

/// Report a declared charset no decoder here matches.
pub fn undecodable_charset(header: Option<&str>, nodes: &Vec<RawNode>) -> (r: Option<String>)
    ensures
        opt_chars(r) == undecodable_of(opt_str_chars(header), nodes@),
{
    let from_header = match header {
        Some(h) => from_content_type(h),
        None => None,
    };
    let declared: Option<String> = match from_header {
        Some(d) => Some(d),
        None => {
            let sel = Sel { tag: Some("meta"), attr: Some("charset"), value: None, class: None };
            proof {
                lemma_first_match(nodes@, sel, 0, nodes@.len() as int);
            }
            match find_first(nodes, &sel, 0, nodes.len()) {
                Some(k) => match node_attr_value(nodes, k, "charset") {
                    Some(c) => Some(owned(c)),
                    None => None,
                },
                None => None,
            }
        },
    };
    match declared {
        Some(label) => {
            if is_known_label(label.as_str()) {
                None
            } else {
                Some(bare_text(label.as_str()))
            }
        },
        None => None,
    }
}

} // verus!
