//! Plain-text conversion with reference-style URL preservation.
//!
//! Links are neither stripped to their domain nor expanded inline: each
//! distinct URL gets a stable index and the anchor text is followed by a
//! compact `[N]` marker, while the full URLs are collected into a reference
//! list that callers can append or expose separately.

use vstd::prelude::*;

use crate::convert::links::{refs_wf, resolve_href, url_serialized, with_ref, RefCollector};
use crate::dom::{attr_of, attr_value, end_of, node_attr, node_name, lemma_end_nested, lemma_end_of, parse_html, parsed_nodes, subtree_end, NodeKind, RawNode};
use crate::extract::{content_root, content_root_of};
use crate::refs::{block, render_block};
use crate::text::{decimal, push_char, push_str, str_eq, trim, trim_str, usize_to_string};
use crate::types::{urefs_view, UrlRefV, UrlReference};

verus! {

/// Elements whose contents never belong in extracted output.
pub open spec fn skippable(name: Seq<char>) -> bool {
    name == "script"@ || name == "style"@ || name == "noscript"@ || name == "svg"@ || name
        == "head"@ || name == "template"@ || name == "iframe"@
}

pub fn is_skippable(name: &str) -> (r: bool)
    ensures
        r == skippable(name@),
{
    str_eq(name, "script") || str_eq(name, "style") || str_eq(name, "noscript") || str_eq(
        name,
        "svg",
    ) || str_eq(name, "head") || str_eq(name, "template") || str_eq(name, "iframe")
}

/// Elements that sit on lines of their own in text output.
pub open spec fn block_name(n: Seq<char>) -> bool {
    n == "p"@ || n == "div"@ || n == "section"@ || n == "article"@ || n == "header"@ || n
        == "footer"@ || n == "h1"@ || n == "h2"@ || n == "h3"@ || n == "h4"@ || n == "h5"@ || n
        == "h6"@ || n == "li"@ || n == "ul"@ || n == "ol"@ || n == "table"@ || n == "tr"@ || n
        == "blockquote"@ || n == "pre"@ || n == "figure"@ || n == "aside"@ || n == "nav"@ || n
        == "main"@
}

fn is_block(n: &str) -> (r: bool)
    ensures
        r == block_name(n@),
{
    str_eq(n, "p") || str_eq(n, "div") || str_eq(n, "section") || str_eq(n, "article")
        || str_eq(n, "header") || str_eq(n, "footer") || str_eq(n, "h1") || str_eq(n, "h2")
        || str_eq(n, "h3") || str_eq(n, "h4") || str_eq(n, "h5") || str_eq(n, "h6") || str_eq(
        n,
        "li",
    ) || str_eq(n, "ul") || str_eq(n, "ol") || str_eq(n, "table") || str_eq(n, "tr") || str_eq(
        n,
        "blockquote",
    ) || str_eq(n, "pre") || str_eq(n, "figure") || str_eq(n, "aside") || str_eq(n, "nav")
        || str_eq(n, "main")
}

/// Does the text end a line?
pub open spec fn ends_nl(s: Seq<char>) -> bool {
    s.len() > 0 && s.last() == '\n'
}

pub fn ends_with_newline(s: &String) -> (r: bool)
    ensures
        r == ends_nl(s@),
{
    let v = crate::text::chars_vec(s.as_str());
    v.len() > 0 && v[v.len() - 1] == '\n'
}

/// The marker a citation appends: ` [N]`.
pub open spec fn marker(idx: usize) -> Seq<char> {
    " ["@ + decimal(idx as nat) + "]"@
}

pub fn push_marker(out: &mut String, idx: usize)
    ensures
        final(out)@ == old(out)@ + marker(idx),
{
    push_str(out, " [");
    let n = usize_to_string(idx);
    push_str(out, n.as_str());
    push_char(out, ']');
    proof {
        reveal_strlit(" [");
        reveal_strlit("]");
        assert(final(out)@ =~= old(out)@ + marker(idx));
    }
}

/// What the text walk makes of the node at `j`, given the text so far and
/// the references so far: text is copied; skipped elements vanish; `<br>` is
/// a newline; a link is its trimmed inner text followed by the marker of the
/// URL it resolves to; table cells after the first in a row are set off by
/// ` | `; block elements start and end their own lines.
pub open spec fn tw_node(
    s: Seq<RawNode>,
    base: Seq<char>,
    ok: bool,
    j: int,
    out: Seq<char>,
    refs: Seq<UrlRefV>,
) -> (Seq<char>, Seq<UrlRefV>)
    decreases s.len() - j, 1int,
{
    if j < 0 || j >= s.len() {
        (out, refs)
    } else {
        match s[j].kind {
            NodeKind::Text(t) => (out + t@, refs),
            NodeKind::Other => (out, refs),
            NodeKind::Element(name, attrs) => {
                let n = name@;
                let e = end_of(s, j);
                if skippable(n) {
                    (out, refs)
                } else if n == "br"@ {
                    (out.push('\n'), refs)
                } else if n == "a"@ {
                    let r = tw_kids(s, base, ok, j + 1, e, Seq::<char>::empty(), refs);
                    let inner = trim(r.0);
                    let out1 = out + inner;
                    match attr_of(attrs@, "href"@) {
                        Some(h) => match resolve_href(base, ok, h) {
                            Some(u) => {
                                let w = with_ref(r.1, u, inner);
                                (out1 + marker(w.0), w.1)
                            },
                            None => (out1, r.1),
                        },
                        None => (out1, r.1),
                    }
                } else if n == "td"@ || n == "th"@ {
                    let out1 = if out.len() > 0 && !ends_nl(out) {
                        out + " | "@
                    } else {
                        out
                    };
                    tw_kids(s, base, ok, j + 1, e, out1, refs)
                } else {
                    let blk = block_name(n);
                    let out1 = if blk && !ends_nl(out) && out.len() > 0 {
                        out.push('\n')
                    } else {
                        out
                    };
                    let r = tw_kids(s, base, ok, j + 1, e, out1, refs);
                    (
                        if blk && !ends_nl(r.0) {
                            r.0.push('\n')
                        } else {
                            r.0
                        },
                        r.1,
                    )
                }
            },
        }
    }
}

/// The text walk over the children at `k..stop`, one subtree after another.
pub open spec fn tw_kids(
    s: Seq<RawNode>,
    base: Seq<char>,
    ok: bool,
    k: int,
    stop: int,
    out: Seq<char>,
    refs: Seq<UrlRefV>,
) -> (Seq<char>, Seq<UrlRefV>)
    decreases s.len() - k + 1, 0int,
{
    if k < 0 || k >= stop || k >= s.len() {
        (out, refs)
    } else {
        let r = tw_node(s, base, ok, k, out, refs);
        proof {
            lemma_end_of(s, k);
        }
        tw_kids(s, base, ok, end_of(s, k), stop, r.0, r.1)
    }
}

fn walk_node(nodes: &Vec<RawNode>, j: usize, out: &mut String, refs: &mut RefCollector)
    requires
        j < nodes@.len(),
        refs_wf(old(refs).refs()),
        old(refs).refs().len() + (end_of(nodes@, j as int) - j) <= usize::MAX,
    ensures
        (final(out)@, final(refs).refs()) == tw_node(
            nodes@,
            old(refs).base(),
            old(refs).base_ok(),
            j as int,
            old(out)@,
            old(refs).refs(),
        ),
        refs_wf(final(refs).refs()),
        final(refs).refs().len() <= old(refs).refs().len() + (end_of(nodes@, j as int) - j),
        final(refs).base() == old(refs).base(),
        final(refs).base_ok() == old(refs).base_ok(),
    decreases nodes@.len() - j, 1int,
{
    proof {
        lemma_end_of(nodes@, j as int);
    }
    match &nodes[j].kind {
        NodeKind::Text(t) => {
            push_str(out, t.as_str());
        },
        NodeKind::Other => {},
        NodeKind::Element(name, attrs) => {
            let name = name.as_str();
            if is_skippable(name) {
                return;
            }
            if str_eq(name, "br") {
                push_char(out, '\n');
                return;
            }
            if str_eq(name, "a") {
                let mut inner = String::new();
                walk_kids(nodes, j, &mut inner, refs);
                let inner = trim_str(inner.as_str());
                push_str(out, inner.as_str());
                if let Some(href) = attr_value(attrs, "href") {
                    if let Some(resolved) = refs.resolve(href) {
                        let idx = refs.index_for(resolved, inner.as_str());
                        push_marker(out, idx);
                    }
                }
                return;
            }
            if str_eq(name, "td") || str_eq(name, "th") {
                if !out.as_str().is_empty() && !ends_with_newline(out) {
                    push_str(out, " | ");
                }
                walk_kids(nodes, j, out, refs);
                return;
            }
            let blk = is_block(name);
            if blk && !ends_with_newline(out) && !out.as_str().is_empty() {
                push_char(out, '\n');
            }
            walk_kids(nodes, j, out, refs);
            if blk && !ends_with_newline(out) {
                push_char(out, '\n');
            }
        },
    }
}

fn walk_kids(nodes: &Vec<RawNode>, p: usize, out: &mut String, refs: &mut RefCollector)
    requires
        p < nodes@.len(),
        refs_wf(old(refs).refs()),
        old(refs).refs().len() + (end_of(nodes@, p as int) - p - 1) <= usize::MAX,
    ensures
        (final(out)@, final(refs).refs()) == tw_kids(
            nodes@,
            old(refs).base(),
            old(refs).base_ok(),
            p + 1,
            end_of(nodes@, p as int),
            old(out)@,
            old(refs).refs(),
        ),
        refs_wf(final(refs).refs()),
        final(refs).refs().len() <= old(refs).refs().len() + (end_of(nodes@, p as int) - p - 1),
        final(refs).base() == old(refs).base(),
        final(refs).base_ok() == old(refs).base_ok(),
    decreases nodes@.len() - p, 0int,
{
    let ghost s = nodes@;
    let ghost base = refs.base();
    let ghost ok = refs.base_ok();
    let ghost out0 = out@;
    let ghost refs0 = refs.refs();
    let e = subtree_end(nodes, p);
    let mut k = p + 1;
    while k < e
        invariant
            s == nodes@,
            p < k <= e,
            e == end_of(s, p as int),
            e <= s.len(),
            refs.base() == base,
            refs.base_ok() == ok,
            refs_wf(refs.refs()),
            refs.refs().len() <= refs0.len() + (k - p - 1),
            refs0.len() + (e - p - 1) <= usize::MAX,
            tw_kids(s, base, ok, p + 1, e as int, out0, refs0) == tw_kids(
                s,
                base,
                ok,
                k as int,
                e as int,
                out@,
                refs.refs(),
            ),
        decreases e - k,
    {
        proof {
            lemma_end_nested(s, p as int, k as int);
        }
        let ghost before = (out@, refs.refs());
        walk_node(nodes, k, out, refs);
        proof {
            assert(tw_kids(s, base, ok, k as int, e as int, before.0, before.1) == tw_kids(
                s,
                base,
                ok,
                end_of(s, k as int),
                e as int,
                out@,
                refs.refs(),
            ));
        }
        k = subtree_end(nodes, k);
    }
}

/// The text and references of a whole page: the walk over the children of
/// its content root, or nothing when it has none.
pub open spec fn text_walk(s: Seq<RawNode>, base: Seq<char>) -> (Seq<char>, Seq<UrlRefV>) {
    match content_root_of(s) {
        Some(r) => tw_kids(
            s,
            base,
            url_serialized(base) is Some,
            r + 1,
            end_of(s, r),
            Seq::<char>::empty(),
            Seq::<UrlRefV>::empty(),
        ),
        None => (Seq::<char>::empty(), Seq::<UrlRefV>::empty()),
    }
}

/// `p` is a prefix of `s`.
pub open spec fn starts_with_seq(s: Seq<char>, p: Seq<char>) -> bool {
    p.len() <= s.len() && s.take(p.len() as int) == p
}

proof fn lemma_prefix_trans(a: Seq<char>, b: Seq<char>, c: Seq<char>)
    requires
        starts_with_seq(b, a),
        starts_with_seq(c, b),
    ensures
        starts_with_seq(c, a),
{
    assert(c.take(a.len() as int) =~= c.take(b.len() as int).take(a.len() as int));
}

proof fn lemma_prefix_append(a: Seq<char>, x: Seq<char>)
    ensures
        starts_with_seq(a + x, a),
{
    assert((a + x).take(a.len() as int) =~= a);
}

/// The text walk only ever appends to the text it is given.
proof fn lemma_tw_node_extends(s: Seq<RawNode>, base: Seq<char>, ok: bool, j: int, out: Seq<char>, refs: Seq<UrlRefV>)
    ensures
        starts_with_seq(tw_node(s, base, ok, j, out, refs).0, out),
    decreases s.len() - j, 1int,
{
    assert(out.take(out.len() as int) =~= out);
    if 0 <= j < s.len() {
        match s[j].kind {
            NodeKind::Text(t) => {
                lemma_prefix_append(out, t@);
            },
            NodeKind::Other => {},
            NodeKind::Element(name, attrs) => {
                let n = name@;
                let e = end_of(s, j);
                if skippable(n) {
                } else if n == "br"@ {
                    lemma_prefix_append(out, seq!['\n']);
                    assert(out.push('\n') =~= out + seq!['\n']);
                } else if n == "a"@ {
                    let r = tw_kids(s, base, ok, j + 1, e, Seq::<char>::empty(), refs);
                    let inner = trim(r.0);
                    lemma_prefix_append(out, inner);
                    if let Some(h) = attr_of(attrs@, "href"@) {
                        if let Some(u) = resolve_href(base, ok, h) {
                            let w = with_ref(r.1, u, inner);
                            lemma_prefix_append(out + inner, marker(w.0));
                            lemma_prefix_trans(out, out + inner, out + inner + marker(w.0));
                        }
                    }
                } else if n == "td"@ || n == "th"@ {
                    let out1 = if out.len() > 0 && !ends_nl(out) {
                        out + " | "@
                    } else {
                        out
                    };
                    lemma_prefix_append(out, " | "@);
                    lemma_tw_kids_extends(s, base, ok, j + 1, e, out1, refs);
                    lemma_prefix_trans(out, out1, tw_kids(s, base, ok, j + 1, e, out1, refs).0);
                } else {
                    let blk = block_name(n);
                    let out1 = if blk && !ends_nl(out) && out.len() > 0 {
                        out.push('\n')
                    } else {
                        out
                    };
                    lemma_prefix_append(out, seq!['\n']);
                    assert(out.push('\n') =~= out + seq!['\n']);
                    lemma_tw_kids_extends(s, base, ok, j + 1, e, out1, refs);
                    let r = tw_kids(s, base, ok, j + 1, e, out1, refs);
                    lemma_prefix_trans(out, out1, r.0);
                    lemma_prefix_append(r.0, seq!['\n']);
                    assert(r.0.push('\n') =~= r.0 + seq!['\n']);
                    lemma_prefix_trans(out, r.0, r.0.push('\n'));
                }
            },
        }
    }
}

proof fn lemma_tw_kids_extends(
    s: Seq<RawNode>,
    base: Seq<char>,
    ok: bool,
    k: int,
    stop: int,
    out: Seq<char>,
    refs: Seq<UrlRefV>,
)
    ensures
        starts_with_seq(tw_kids(s, base, ok, k, stop, out, refs).0, out),
    decreases s.len() - k + 1, 0int,
{
    assert(out.take(out.len() as int) =~= out);
    if !(k < 0 || k >= stop || k >= s.len()) {
        let r = tw_node(s, base, ok, k, out, refs);
        lemma_tw_node_extends(s, base, ok, k, out, refs);
        lemma_end_of(s, k);
        lemma_tw_kids_extends(s, base, ok, end_of(s, k), stop, r.0, r.1);
        lemma_prefix_trans(out, r.0, tw_kids(s, base, ok, end_of(s, k), stop, r.0, r.1).0);
    }
}

/// The tag names the walks tell apart are different names.
pub proof fn lemma_tag_names_differ()
    ensures
        !skippable("a"@),
        !skippable("br"@),
        !skippable("td"@),
        !skippable("th"@),
        !skippable("code"@),
        "a"@ != "br"@,
        "td"@ != "br"@ && "td"@ != "a"@,
        "th"@ != "br"@ && "th"@ != "a"@,
        "code"@ != "br"@ && "code"@ != "a"@,
{
    reveal_strlit("a");
    reveal_strlit("br");
    reveal_strlit("td");
    reveal_strlit("th");
    reveal_strlit("code");
    reveal_strlit("script");
    reveal_strlit("style");
    reveal_strlit("noscript");
    reveal_strlit("svg");
    reveal_strlit("head");
    reveal_strlit("template");
    reveal_strlit("iframe");
    assert("a"@.len() == 1);
    assert("br"@.len() == 2 && "td"@.len() == 2 && "th"@.len() == 2);
    assert("code"@.len() == 4 && "head"@.len() == 4);
    assert("script"@.len() == 6 && "iframe"@.len() == 6);
    assert("style"@.len() == 5);
    assert("noscript"@.len() == 8 && "template"@.len() == 8);
    assert("svg"@.len() == 3);
    assert("br"@[0] != "td"@[0] && "br"@[0] != "th"@[0] && "td"@[1] != "th"@[1]);
    assert("code"@[0] != "head"@[0]);
}

/// The block names are neither skipped nor any of the names the walk
/// treats on their own.
proof fn lemma_block_names_apart(n: Seq<char>)
    requires
        n == "p"@ || n == "div"@ || n == "section"@ || n == "article"@ || n == "header"@ || n == "footer"@ || n == "h1"@ || n == "h2"@ || n == "h3"@ || n == "h4"@ || n == "h5"@ || n == "h6"@ || n == "li"@ || n == "ul"@ || n == "ol"@ || n == "table"@ || n == "tr"@ || n == "blockquote"@ || n == "pre"@ || n == "figure"@ || n == "aside"@ || n == "nav"@ || n == "main"@,
    ensures
        block_name(n),
        !skippable(n),
        n != "br"@ && n != "a"@ && n != "td"@ && n != "th"@,
{
    reveal_strlit("a");
    reveal_strlit("article");
    reveal_strlit("aside");
    reveal_strlit("blockquote");
    reveal_strlit("br");
    reveal_strlit("div");
    reveal_strlit("figure");
    reveal_strlit("footer");
    reveal_strlit("h1");
    reveal_strlit("h2");
    reveal_strlit("h3");
    reveal_strlit("h4");
    reveal_strlit("h5");
    reveal_strlit("h6");
    reveal_strlit("head");
    reveal_strlit("header");
    reveal_strlit("iframe");
    reveal_strlit("li");
    reveal_strlit("main");
    reveal_strlit("nav");
    reveal_strlit("noscript");
    reveal_strlit("ol");
    reveal_strlit("p");
    reveal_strlit("pre");
    reveal_strlit("script");
    reveal_strlit("section");
    reveal_strlit("style");
    reveal_strlit("svg");
    reveal_strlit("table");
    reveal_strlit("td");
    reveal_strlit("template");
    reveal_strlit("th");
    reveal_strlit("tr");
    reveal_strlit("ul");
    assert("a"@.len() == 1);
    assert("article"@.len() == 7);
    assert("aside"@.len() == 5);
    assert("blockquote"@.len() == 10);
    assert("br"@.len() == 2);
    assert("div"@.len() == 3);
    assert("figure"@.len() == 6);
    assert("footer"@.len() == 6);
    assert("h1"@.len() == 2);
    assert("h2"@.len() == 2);
    assert("h3"@.len() == 2);
    assert("h4"@.len() == 2);
    assert("h5"@.len() == 2);
    assert("h6"@.len() == 2);
    assert("head"@.len() == 4);
    assert("header"@.len() == 6);
    assert("iframe"@.len() == 6);
    assert("li"@.len() == 2);
    assert("main"@.len() == 4);
    assert("nav"@.len() == 3);
    assert("noscript"@.len() == 8);
    assert("ol"@.len() == 2);
    assert("p"@.len() == 1);
    assert("pre"@.len() == 3);
    assert("script"@.len() == 6);
    assert("section"@.len() == 7);
    assert("style"@.len() == 5);
    assert("svg"@.len() == 3);
    assert("table"@.len() == 5);
    assert("td"@.len() == 2);
    assert("template"@.len() == 8);
    assert("th"@.len() == 2);
    assert("tr"@.len() == 2);
    assert("ul"@.len() == 2);
    assert("aside"@[0] != "style"@[0]);
    assert("div"@[0] != "svg"@[0]);
    assert("figure"@[0] != "iframe"@[0]);
    assert("figure"@[0] != "script"@[0]);
    assert("footer"@[0] != "iframe"@[0]);
    assert("footer"@[0] != "script"@[0]);
    assert("h1"@[0] != "br"@[0]);
    assert("h1"@[0] != "td"@[0]);
    assert("h1"@[0] != "th"@[0]);
    assert("h2"@[0] != "br"@[0]);
    assert("h2"@[0] != "td"@[0]);
    assert("h2"@[0] != "th"@[0]);
    assert("h3"@[0] != "br"@[0]);
    assert("h3"@[0] != "td"@[0]);
    assert("h3"@[0] != "th"@[0]);
    assert("h4"@[0] != "br"@[0]);
    assert("h4"@[0] != "td"@[0]);
    assert("h4"@[0] != "th"@[0]);
    assert("h5"@[0] != "br"@[0]);
    assert("h5"@[0] != "td"@[0]);
    assert("h5"@[0] != "th"@[0]);
    assert("h6"@[0] != "br"@[0]);
    assert("h6"@[0] != "td"@[0]);
    assert("h6"@[0] != "th"@[0]);
    assert("header"@[0] != "iframe"@[0]);
    assert("header"@[0] != "script"@[0]);
    assert("li"@[0] != "br"@[0]);
    assert("li"@[0] != "td"@[0]);
    assert("li"@[0] != "th"@[0]);
    assert("main"@[0] != "head"@[0]);
    assert("nav"@[0] != "svg"@[0]);
    assert("ol"@[0] != "br"@[0]);
    assert("ol"@[0] != "td"@[0]);
    assert("ol"@[0] != "th"@[0]);
    assert("p"@[0] != "a"@[0]);
    assert("pre"@[0] != "svg"@[0]);
    assert("table"@[0] != "style"@[0]);
    assert("tr"@[0] != "br"@[0]);
    assert("tr"@[1] != "td"@[1]);
    assert("tr"@[1] != "th"@[1]);
    assert("ul"@[0] != "br"@[0]);
    assert("ul"@[0] != "td"@[0]);
    assert("ul"@[0] != "th"@[0]);
}

/// Text-walk law, node by node: the walk only appends; text is copied as it
/// is; comments and the like add nothing; `script`, `style`, `noscript`,
/// `svg`, `head`, `template` and `iframe` vanish with everything inside;
/// `<br>` adds exactly one newline and nothing else; a table cell that does
/// not open a line is set off by ` | `; and a block element (paragraph,
/// division, section, article, header, footer, heading, list or list item,
/// table or row, quote, preformatted text, figure, aside, nav, main) opens a
/// line of its own and ends its text with a newline.
pub proof fn lemma_text_walk_node(s: Seq<RawNode>, base: Seq<char>, ok: bool, j: int, out: Seq<char>, refs: Seq<UrlRefV>)
    requires
        0 <= j < s.len(),
    ensures
        starts_with_seq(tw_node(s, base, ok, j, out, refs).0, out),
        s[j].kind matches NodeKind::Text(t) ==> tw_node(s, base, ok, j, out, refs) == (out + t@, refs),
        s[j].kind is Other ==> tw_node(s, base, ok, j, out, refs) == (out, refs),
        node_name(s[j]) == Some("script"@) || node_name(s[j]) == Some("style"@) || node_name(s[j]) == Some(
            "noscript"@,
        ) || node_name(s[j]) == Some("svg"@) || node_name(s[j]) == Some("head"@) || node_name(s[j]) == Some(
            "template"@,
        ) || node_name(s[j]) == Some("iframe"@) ==> tw_node(s, base, ok, j, out, refs) == (out, refs),
        node_name(s[j]) == Some("br"@) ==> tw_node(s, base, ok, j, out, refs) == (out.push('\n'), refs),
        (node_name(s[j]) == Some("td"@) || node_name(s[j]) == Some("th"@)) && out.len() > 0 && out.last() != '\n'
            ==> starts_with_seq(tw_node(s, base, ok, j, out, refs).0, out + " | "@),
        ({
            let n = node_name(s[j]);
            n == Some("p"@) || n == Some("div"@) || n == Some("section"@) || n == Some("article"@) || n == Some(
                "header"@,
            ) || n == Some("footer"@) || n == Some("h1"@) || n == Some("h2"@) || n == Some("h3"@) || n == Some(
                "h4"@,
            ) || n == Some("h5"@) || n == Some("h6"@) || n == Some("li"@) || n == Some("ul"@) || n == Some("ol"@)
                || n == Some("table"@) || n == Some("tr"@) || n == Some("blockquote"@) || n == Some("pre"@) || n
                == Some("figure"@) || n == Some("aside"@) || n == Some("nav"@) || n == Some("main"@)
        }) ==> {
            let r = tw_node(s, base, ok, j, out, refs).0;
            &&& r.len() > 0 && r.last() == '\n'
            &&& out.len() > 0 && out.last() != '\n' ==> starts_with_seq(r, out.push('\n'))
        },
{
    lemma_tag_names_differ();
    lemma_tw_node_extends(s, base, ok, j, out, refs);
    if let NodeKind::Element(name, attrs) = s[j].kind {
        let n = name@;
        let e = end_of(s, j);
        assert(node_name(s[j]) == Some(n));
        if n == "p"@ || n == "div"@ || n == "section"@ || n == "article"@ || n == "header"@ || n == "footer"@ || n == "h1"@ || n == "h2"@ || n == "h3"@ || n == "h4"@ || n == "h5"@ || n == "h6"@ || n == "li"@ || n == "ul"@ || n == "ol"@ || n == "table"@ || n == "tr"@ || n == "blockquote"@ || n == "pre"@ || n == "figure"@ || n == "aside"@ || n == "nav"@ || n == "main"@ {
            lemma_block_names_apart(n);
        }
        if n == "td"@ || n == "th"@ {
            let out1 = if out.len() > 0 && !ends_nl(out) {
                out + " | "@
            } else {
                out
            };
            lemma_tw_kids_extends(s, base, ok, j + 1, e, out1, refs);
        } else if {
            let m = node_name(s[j]);
            m == Some("p"@) || m == Some("div"@) || m == Some("section"@) || m == Some("article"@) || m == Some(
                "header"@,
            ) || m == Some("footer"@) || m == Some("h1"@) || m == Some("h2"@) || m == Some("h3"@) || m == Some(
                "h4"@,
            ) || m == Some("h5"@) || m == Some("h6"@) || m == Some("li"@) || m == Some("ul"@) || m == Some("ol"@)
                || m == Some("table"@) || m == Some("tr"@) || m == Some("blockquote"@) || m == Some("pre"@) || m
                == Some("figure"@) || m == Some("aside"@) || m == Some("nav"@) || m == Some("main"@)
        } {
            let out1 = if !ends_nl(out) && out.len() > 0 {
                out.push('\n')
            } else {
                out
            };
            lemma_tw_kids_extends(s, base, ok, j + 1, e, out1, refs);
            let r = tw_kids(s, base, ok, j + 1, e, out1, refs);
            let res = tw_node(s, base, ok, j, out, refs).0;
            if ends_nl(r.0) {
                assert(res == r.0);
            } else {
                lemma_prefix_append(r.0, seq!['\n']);
                assert(r.0.push('\n') =~= r.0 + seq!['\n']);
                lemma_prefix_trans(out1, r.0, r.0.push('\n'));
                assert(res == r.0.push('\n'));
            }
            assert(res.len() > 0 && res.last() == '\n');
            if out.len() > 0 && out.last() != '\n' {
                assert(!ends_nl(out));
                assert(out1 == out.push('\n'));
                assert(starts_with_seq(res, out1));
                assert(starts_with_seq(res, out.push('\n')));
            }
        }
    }
}

/// Link law: a link whose href resolves to `u` is written as its trimmed
/// text followed by ` [N]`, where `N` is the index the references now give
/// `u`.
pub proof fn lemma_text_walk_link(
    s: Seq<RawNode>,
    base: Seq<char>,
    ok: bool,
    j: int,
    out: Seq<char>,
    refs: Seq<UrlRefV>,
    h: Seq<char>,
    u: Seq<char>,
)
    requires
        0 <= j < s.len(),
        node_name(s[j]) == Some("a"@),
        node_attr(s[j], "href"@) == Some(h),
        resolve_href(base, ok, h) == Some(u),
    ensures
        ({
            let inner = tw_kids(s, base, ok, j + 1, end_of(s, j), Seq::<char>::empty(), refs).0;
            let res = tw_node(s, base, ok, j, out, refs);
            exists|i: int|
                0 <= i < res.1.len() && #[trigger] res.1[i].url == u && res.0 == out + trim(inner) + marker(
                    res.1[i].index,
                )
        }),
{
    lemma_tag_names_differ();
    let r = tw_kids(s, base, ok, j + 1, end_of(s, j), Seq::<char>::empty(), refs);
    let inner = trim(r.0);
    let w = with_ref(r.1, u, inner);
    let res = tw_node(s, base, ok, j, out, refs);
    assert(res == (out + inner + marker(w.0), w.1));
    match crate::convert::links::ref_slot(r.1, u) {
        Some(k) => {
            crate::convert::links::lemma_ref_slot(r.1, u);
            assert(res.1[k].url == u);
        },
        None => {
            assert(res.1[r.1.len() as int].url == u);
        },
    }
}

/// Where the node links to: for an `a` element with an href that resolves,
/// the resolved URL.
pub open spec fn link_target(node: RawNode, base: Seq<char>, ok: bool) -> Option<Seq<char>> {
    match node.kind {
        NodeKind::Element(name, attrs) => if name@ == "a"@ {
            match attr_of(attrs@, "href"@) {
                Some(h) => resolve_href(base, ok, h),
                None => None,
            }
        } else {
            None
        },
        _ => None,
    }
}

/// Some link of the document resolves to `u`.
pub open spec fn linked(s: Seq<RawNode>, base: Seq<char>, ok: bool, u: Seq<char>) -> bool {
    exists|j: int| 0 <= j < s.len() && #[trigger] link_target(s[j], base, ok) == Some(u)
}

/// `after` extends `before`, and every reference it adds is a link of the
/// document.
pub open spec fn grown_by_links(
    s: Seq<RawNode>,
    base: Seq<char>,
    ok: bool,
    before: Seq<UrlRefV>,
    after: Seq<UrlRefV>,
) -> bool {
    &&& before.len() <= after.len()
    &&& after.take(before.len() as int) == before
    &&& forall|i: int| before.len() <= i < after.len() ==> linked(s, base, ok, #[trigger] after[i].url)
}

proof fn lemma_grown_trans(
    s: Seq<RawNode>,
    base: Seq<char>,
    ok: bool,
    a: Seq<UrlRefV>,
    b: Seq<UrlRefV>,
    c: Seq<UrlRefV>,
)
    requires
        grown_by_links(s, base, ok, a, b),
        grown_by_links(s, base, ok, b, c),
    ensures
        grown_by_links(s, base, ok, a, c),
{
    assert forall|i: int| a.len() <= i < c.len() implies linked(s, base, ok, #[trigger] c[i].url) by {
        if i < b.len() {
            assert(c[i] == c.take(b.len() as int)[i]);
            assert(b[i] == b.take(a.len() as int + (b.len() - a.len()))[i]);
        }
    }
    assert(c.take(a.len() as int) =~= c.take(b.len() as int).take(a.len() as int));
}

proof fn lemma_tw_node_links(
    s: Seq<RawNode>,
    base: Seq<char>,
    ok: bool,
    j: int,
    out: Seq<char>,
    refs: Seq<UrlRefV>,
)
    ensures
        grown_by_links(s, base, ok, refs, tw_node(s, base, ok, j, out, refs).1),
    decreases s.len() - j, 1int,
{
    assert(refs.take(refs.len() as int) =~= refs);
    if 0 <= j < s.len() {
        match s[j].kind {
            NodeKind::Element(name, attrs) => {
                let n = name@;
                let e = end_of(s, j);
                if skippable(n) || n == "br"@ {
                } else if n == "a"@ {
                    let r = tw_kids(s, base, ok, j + 1, e, Seq::<char>::empty(), refs);
                    lemma_tw_kids_links(s, base, ok, j + 1, e, Seq::<char>::empty(), refs);
                    let inner = trim(r.0);
                    if let Some(h) = attr_of(attrs@, "href"@) {
                        if let Some(u) = resolve_href(base, ok, h) {
                            assert(link_target(s[j], base, ok) == Some(u));
                            let w = with_ref(r.1, u, inner);
                            if w.1 != r.1 {
                                assert(w.1.take(r.1.len() as int) =~= r.1);
                                assert(w.1[r.1.len() as int].url == u);
                            } else {
                                assert(r.1.take(r.1.len() as int) =~= r.1);
                            }
                            assert(grown_by_links(s, base, ok, r.1, w.1));
                            lemma_grown_trans(s, base, ok, refs, r.1, w.1);
                        }
                    }
                } else if n == "td"@ || n == "th"@ {
                    let out1 = if out.len() > 0 && !ends_nl(out) {
                        out + " | "@
                    } else {
                        out
                    };
                    lemma_tw_kids_links(s, base, ok, j + 1, e, out1, refs);
                } else {
                    let blk = block_name(n);
                    let out1 = if blk && !ends_nl(out) && out.len() > 0 {
                        out.push('\n')
                    } else {
                        out
                    };
                    lemma_tw_kids_links(s, base, ok, j + 1, e, out1, refs);
                }
            },
            _ => {},
        }
    }
}

proof fn lemma_tw_kids_links(
    s: Seq<RawNode>,
    base: Seq<char>,
    ok: bool,
    k: int,
    stop: int,
    out: Seq<char>,
    refs: Seq<UrlRefV>,
)
    ensures
        grown_by_links(s, base, ok, refs, tw_kids(s, base, ok, k, stop, out, refs).1),
    decreases s.len() - k + 1, 0int,
{
    assert(refs.take(refs.len() as int) =~= refs);
    if !(k < 0 || k >= stop || k >= s.len()) {
        let r = tw_node(s, base, ok, k, out, refs);
        lemma_tw_node_links(s, base, ok, k, out, refs);
        lemma_end_of(s, k);
        lemma_tw_kids_links(s, base, ok, end_of(s, k), stop, r.0, r.1);
        lemma_grown_trans(s, base, ok, refs, r.1, tw_kids(s, base, ok, end_of(s, k), stop, r.0, r.1).1);
    }
}

/// Reference law: every reference of the text walk is a link of the page,
/// an `a` element whose href resolves (so, by
/// [`crate::convert::links::lemma_resolved_href_is_fetchable`], neither an
/// empty href, nor an in-page anchor, nor one with nothing to fetch).
pub proof fn lemma_refs_come_from_links(s: Seq<RawNode>, base: Seq<char>)
    ensures
        forall|i: int|
            0 <= i < text_walk(s, base).1.len() ==> linked(
                s,
                base,
                url_serialized(base) is Some,
                #[trigger] text_walk(s, base).1[i].url,
            ),
{
    if let Some(r) = content_root_of(s) {
        lemma_tw_kids_links(
            s,
            base,
            url_serialized(base) is Some,
            r + 1,
            end_of(s, r),
            Seq::<char>::empty(),
            Seq::<UrlRefV>::empty(),
        );
    }
}

/// Convert a parsed document to reference-style plain text.
///
/// Returns the body text, with inline `[N]` markers, and the references in
/// index order: numbered from 1 with no gaps, each URL listed once. The text
/// does not include the rendered `References:` block.
pub fn text_with_refs(nodes: &Vec<RawNode>, base_url: &str) -> (r: (String, Vec<UrlReference>))
    ensures
        (r.0@, urefs_view(r.1@)) == text_walk(nodes@, base_url@),
        refs_wf(urefs_view(r.1@)),
{
    let root = match content_root(nodes) {
        Some(k) => k,
        None => {
            let v: Vec<UrlReference> = Vec::new();
            assert(urefs_view(v@) =~= Seq::<UrlRefV>::empty());
            return (String::new(), v);
        },
    };
    let n = nodes.len();
    let mut refs = RefCollector::new(base_url);
    let mut out = String::new();
    proof {
        lemma_end_of(nodes@, root as int);
        assert(refs.refs() =~= Seq::<UrlRefV>::empty());
        assert(out@ =~= Seq::<char>::empty());
    }
    walk_kids(nodes, root, &mut out, &mut refs);
    let v = refs.into_references();
    (out, v)
}

/// [`text_with_refs`] for callers holding raw HTML.
pub fn html_to_text_with_refs(html: &str, base_url: &str) -> (r: (String, Vec<UrlReference>))
    ensures
        (r.0@, urefs_view(r.1@)) == text_walk(parsed_nodes(html@), base_url@),
        refs_wf(urefs_view(r.1@)),
{
    let nodes = parse_html(html);
    text_with_refs(&nodes, base_url)
}

/// Render a reference list into the canonical block appended to text output.
pub fn render_references(references: &[UrlReference]) -> (r: String)
    ensures
        r@ == block(crate::refs::pairs(references@)),
{
    render_block(references)
}

} // verus!
