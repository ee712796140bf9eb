//! Markdown conversion. Unlike the text path, markdown keeps links inline as
//! `[text](url)` for fidelity, the right trade-off when the consumer wants a
//! faithful, re-renderable document rather than minimal tokens.
//!
//! Links are still collected into a reference list, so a caller asking for
//! structured output gets the same recoverable URLs; and the schemes the text
//! path refuses are left as plain text rather than emitted as live links.

use vstd::prelude::*;

use crate::convert::links::{refs_wf, resolve_href, url_serialized, with_ref, RefCollector};
use crate::convert::text::{is_skippable, skippable, starts_with_seq};
use crate::dom::{attr_of, attr_value, end_of, node_attr, node_name, lemma_end_nested, lemma_end_of, parse_html, parsed_nodes, subtree_end, NodeKind, RawNode};
use crate::extract::{content_root, content_root_of};
use crate::text::{push_char, push_str, str_eq, trim, trim_str};
use crate::types::{urefs_view, UrlRefV, UrlReference};

verus! {

/// The line prefix an element opens with, if any.
pub open spec fn md_prefix(n: Seq<char>) -> Option<Seq<char>> {
    if n == "h1"@ {
        Some("\n# "@)
    } else if n == "h2"@ {
        Some("\n## "@)
    } else if n == "h3"@ {
        Some("\n### "@)
    } else if n == "h4"@ {
        Some("\n#### "@)
    } else if n == "h5"@ {
        Some("\n##### "@)
    } else if n == "h6"@ {
        Some("\n###### "@)
    } else if n == "li"@ {
        Some("\n- "@)
    } else if n == "blockquote"@ {
        Some("\n> "@)
    } else {
        None
    }
}

fn prefix_for(n: &str) -> (r: Option<&'static str>)
    ensures
        crate::text::opt_str_chars(r) == md_prefix(n@),
{
    if str_eq(n, "h1") {
        Some("\n# ")
    } else if str_eq(n, "h2") {
        Some("\n## ")
    } else if str_eq(n, "h3") {
        Some("\n### ")
    } else if str_eq(n, "h4") {
        Some("\n#### ")
    } else if str_eq(n, "h5") {
        Some("\n##### ")
    } else if str_eq(n, "h6") {
        Some("\n###### ")
    } else if str_eq(n, "li") {
        Some("\n- ")
    } else if str_eq(n, "blockquote") {
        Some("\n> ")
    } else {
        None
    }
}

/// Elements that end with a line break in markdown.
pub open spec fn md_breaks(n: Seq<char>) -> bool {
    n == "p"@ || n == "div"@ || n == "section"@ || n == "h1"@ || n == "h2"@ || n == "h3"@ || n
        == "h4"@ || n == "h5"@ || n == "h6"@
}

fn breaks_after(n: &str) -> (r: bool)
    ensures
        r == md_breaks(n@),
{
    str_eq(n, "p") || str_eq(n, "div") || str_eq(n, "section") || str_eq(n, "h1") || str_eq(n, "h2")
        || str_eq(n, "h3") || str_eq(n, "h4") || str_eq(n, "h5") || str_eq(n, "h6")
}

/// What the markdown walk makes of the node at `j`: text is copied; skipped
/// elements vanish; `<br>` is a newline; a link whose URL resolves becomes
/// `[text](url)` and is recorded, any other link is its trimmed text;
/// `<code>` is its trimmed content in backticks; headings, list items and
/// quotes open with their markdown prefix; paragraphs, divisions, sections
/// and headings end with a newline.
pub open spec fn mw_node(
    s: Seq<RawNode>,
    base: Seq<char>,
    ok: bool,
    j: int,
    out: Seq<char>,
    refs: Seq<UrlRefV>,
) -> (Seq<char>, Seq<UrlRefV>)
    decreases s.len() - j, 1int,
{
    if j < 0 || j >= s.len() {
        (out, refs)
    } else {
        match s[j].kind {
            NodeKind::Text(t) => (out + t@, refs),
            NodeKind::Other => (out, refs),
            NodeKind::Element(name, attrs) => {
                let n = name@;
                let e = end_of(s, j);
                if skippable(n) {
                    (out, refs)
                } else if n == "br"@ {
                    (out.push('\n'), refs)
                } else if n == "a"@ {
                    let r = mw_kids(s, base, ok, j + 1, e, Seq::<char>::empty(), refs);
                    let inner = trim(r.0);
                    let url = match attr_of(attrs@, "href"@) {
                        Some(h) => resolve_href(base, ok, h),
                        None => None,
                    };
                    match url {
                        Some(u) => (
                            out + "["@ + inner + "]("@ + u + ")"@,
                            with_ref(r.1, u, inner).1,
                        ),
                        None => (out + inner, r.1),
                    }
                } else if n == "code"@ {
                    let r = mw_kids(s, base, ok, j + 1, e, Seq::<char>::empty(), refs);
                    (out + "`"@ + trim(r.0) + "`"@, r.1)
                } else {
                    let out1 = match md_prefix(n) {
                        Some(p) => out + p,
                        None => out,
                    };
                    let r = mw_kids(s, base, ok, j + 1, e, out1, refs);
                    (
                        if md_breaks(n) {
                            r.0.push('\n')
                        } else {
                            r.0
                        },
                        r.1,
                    )
                }
            },
        }
    }
}

/// The markdown walk over the children at `k..stop`.
pub open spec fn mw_kids(
    s: Seq<RawNode>,
    base: Seq<char>,
    ok: bool,
    k: int,
    stop: int,
    out: Seq<char>,
    refs: Seq<UrlRefV>,
) -> (Seq<char>, Seq<UrlRefV>)
    decreases s.len() - k + 1, 0int,
{
    if k < 0 || k >= stop || k >= s.len() {
        (out, refs)
    } else {
        let r = mw_node(s, base, ok, k, out, refs);
        proof {
            lemma_end_of(s, k);
        }
        mw_kids(s, base, ok, end_of(s, k), stop, r.0, r.1)
    }
}

/// How the markdown walk reads each tag name it treats on its own: none of
/// them is skipped, they are told apart, and each has its prefix and line
/// break.
proof fn lemma_md_names()
    ensures
        !skippable("a"@),
        "a"@ != "br"@,
        "a"@ != "code"@,
        !skippable("blockquote"@),
        "blockquote"@ != "br"@,
        "blockquote"@ != "a"@,
        "blockquote"@ != "code"@,
        md_prefix("blockquote"@) == Some("\n> "@),
        md_breaks("blockquote"@) == false,
        !skippable("br"@),
        "br"@ != "code"@,
        !skippable("code"@),
        !skippable("div"@),
        "div"@ != "br"@,
        "div"@ != "a"@,
        "div"@ != "code"@,
        md_prefix("div"@) is None,
        md_breaks("div"@) == true,
        !skippable("h1"@),
        "h1"@ != "br"@,
        "h1"@ != "a"@,
        "h1"@ != "code"@,
        md_prefix("h1"@) == Some("\n# "@),
        md_breaks("h1"@) == true,
        !skippable("h2"@),
        "h2"@ != "br"@,
        "h2"@ != "a"@,
        "h2"@ != "code"@,
        md_prefix("h2"@) == Some("\n## "@),
        md_breaks("h2"@) == true,
        !skippable("h3"@),
        "h3"@ != "br"@,
        "h3"@ != "a"@,
        "h3"@ != "code"@,
        md_prefix("h3"@) == Some("\n### "@),
        md_breaks("h3"@) == true,
        !skippable("h4"@),
        "h4"@ != "br"@,
        "h4"@ != "a"@,
        "h4"@ != "code"@,
        md_prefix("h4"@) == Some("\n#### "@),
        md_breaks("h4"@) == true,
        !skippable("h5"@),
        "h5"@ != "br"@,
        "h5"@ != "a"@,
        "h5"@ != "code"@,
        md_prefix("h5"@) == Some("\n##### "@),
        md_breaks("h5"@) == true,
        !skippable("h6"@),
        "h6"@ != "br"@,
        "h6"@ != "a"@,
        "h6"@ != "code"@,
        md_prefix("h6"@) == Some("\n###### "@),
        md_breaks("h6"@) == true,
        !skippable("li"@),
        "li"@ != "br"@,
        "li"@ != "a"@,
        "li"@ != "code"@,
        md_prefix("li"@) == Some("\n- "@),
        md_breaks("li"@) == false,
        !skippable("p"@),
        "p"@ != "br"@,
        "p"@ != "a"@,
        "p"@ != "code"@,
        md_prefix("p"@) is None,
        md_breaks("p"@) == true,
        !skippable("section"@),
        "section"@ != "br"@,
        "section"@ != "a"@,
        "section"@ != "code"@,
        md_prefix("section"@) is None,
        md_breaks("section"@) == true,
{
    reveal_strlit("a");
    reveal_strlit("blockquote");
    reveal_strlit("br");
    reveal_strlit("code");
    reveal_strlit("div");
    reveal_strlit("h1");
    reveal_strlit("h2");
    reveal_strlit("h3");
    reveal_strlit("h4");
    reveal_strlit("h5");
    reveal_strlit("h6");
    reveal_strlit("head");
    reveal_strlit("iframe");
    reveal_strlit("li");
    reveal_strlit("noscript");
    reveal_strlit("p");
    reveal_strlit("script");
    reveal_strlit("section");
    reveal_strlit("style");
    reveal_strlit("svg");
    reveal_strlit("template");
    assert("a"@.len() == 1);
    assert("blockquote"@.len() == 10);
    assert("br"@.len() == 2);
    assert("code"@.len() == 4);
    assert("div"@.len() == 3);
    assert("h1"@.len() == 2);
    assert("h2"@.len() == 2);
    assert("h3"@.len() == 2);
    assert("h4"@.len() == 2);
    assert("h5"@.len() == 2);
    assert("h6"@.len() == 2);
    assert("head"@.len() == 4);
    assert("iframe"@.len() == 6);
    assert("li"@.len() == 2);
    assert("noscript"@.len() == 8);
    assert("p"@.len() == 1);
    assert("script"@.len() == 6);
    assert("section"@.len() == 7);
    assert("style"@.len() == 5);
    assert("svg"@.len() == 3);
    assert("template"@.len() == 8);
    assert("a"@[0] != "p"@[0]);
    assert("br"@[0] != "h1"@[0]);
    assert("br"@[0] != "h2"@[0]);
    assert("br"@[0] != "h3"@[0]);
    assert("br"@[0] != "h4"@[0]);
    assert("br"@[0] != "h5"@[0]);
    assert("br"@[0] != "h6"@[0]);
    assert("br"@[0] != "li"@[0]);
    assert("code"@[0] != "head"@[0]);
    assert("div"@[0] != "svg"@[0]);
    assert("h1"@[0] != "li"@[0]);
    assert("h1"@[1] != "h2"@[1]);
    assert("h1"@[1] != "h3"@[1]);
    assert("h1"@[1] != "h4"@[1]);
    assert("h1"@[1] != "h5"@[1]);
    assert("h1"@[1] != "h6"@[1]);
    assert("h2"@[0] != "li"@[0]);
    assert("h2"@[1] != "h3"@[1]);
    assert("h2"@[1] != "h4"@[1]);
    assert("h2"@[1] != "h5"@[1]);
    assert("h2"@[1] != "h6"@[1]);
    assert("h3"@[0] != "li"@[0]);
    assert("h3"@[1] != "h4"@[1]);
    assert("h3"@[1] != "h5"@[1]);
    assert("h3"@[1] != "h6"@[1]);
    assert("h4"@[0] != "li"@[0]);
    assert("h4"@[1] != "h5"@[1]);
    assert("h4"@[1] != "h6"@[1]);
    assert("h5"@[0] != "li"@[0]);
    assert("h5"@[1] != "h6"@[1]);
    assert("h6"@[0] != "li"@[0]);
}

proof fn lemma_prefix_append(a: Seq<char>, x: Seq<char>)
    ensures
        starts_with_seq(a + x, a),
{
    assert((a + x).take(a.len() as int) =~= a);
}

proof fn lemma_prefix_trans(a: Seq<char>, b: Seq<char>, c: Seq<char>)
    requires
        starts_with_seq(b, a),
        starts_with_seq(c, b),
    ensures
        starts_with_seq(c, a),
{
    assert(c.take(a.len() as int) =~= c.take(b.len() as int).take(a.len() as int));
}

/// The markdown walk only ever appends to the text it is given.
proof fn lemma_mw_node_extends(s: Seq<RawNode>, base: Seq<char>, ok: bool, j: int, out: Seq<char>, refs: Seq<UrlRefV>)
    ensures
        starts_with_seq(mw_node(s, base, ok, j, out, refs).0, out),
    decreases s.len() - j, 1int,
{
    assert(out.take(out.len() as int) =~= out);
    if 0 <= j < s.len() {
        match s[j].kind {
            NodeKind::Text(t) => {
                lemma_prefix_append(out, t@);
            },
            NodeKind::Other => {},
            NodeKind::Element(name, attrs) => {
                let n = name@;
                let e = end_of(s, j);
                if skippable(n) {
                } else if n == "br"@ {
                    lemma_prefix_append(out, seq!['\n']);
                    assert(out.push('\n') =~= out + seq!['\n']);
                } else if n == "a"@ {
                    let r = mw_kids(s, base, ok, j + 1, e, Seq::<char>::empty(), refs);
                    let inner = trim(r.0);
                    let url = match attr_of(attrs@, "href"@) {
                        Some(h) => resolve_href(base, ok, h),
                        None => None,
                    };
                    match url {
                        Some(u) => {
                            assert(out + "["@ + inner + "]("@ + u + ")"@ =~= out + ("["@ + inner + "]("@ + u + ")"@));
                            lemma_prefix_append(out, "["@ + inner + "]("@ + u + ")"@);
                        },
                        None => {
                            lemma_prefix_append(out, inner);
                        },
                    }
                } else if n == "code"@ {
                    let r = mw_kids(s, base, ok, j + 1, e, Seq::<char>::empty(), refs);
                    assert(out + "`"@ + trim(r.0) + "`"@ =~= out + ("`"@ + trim(r.0) + "`"@));
                    lemma_prefix_append(out, "`"@ + trim(r.0) + "`"@);
                } else {
                    let out1 = match md_prefix(n) {
                        Some(p) => out + p,
                        None => out,
                    };
                    if let Some(p) = md_prefix(n) {
                        lemma_prefix_append(out, p);
                    } else {
                        assert(out.take(out.len() as int) =~= out);
                    }
                    lemma_mw_kids_extends(s, base, ok, j + 1, e, out1, refs);
                    let r = mw_kids(s, base, ok, j + 1, e, out1, refs);
                    lemma_prefix_trans(out, out1, r.0);
                    lemma_prefix_append(r.0, seq!['\n']);
                    assert(r.0.push('\n') =~= r.0 + seq!['\n']);
                    lemma_prefix_trans(out, r.0, r.0.push('\n'));
                }
            },
        }
    }
}

proof fn lemma_mw_kids_extends(
    s: Seq<RawNode>,
    base: Seq<char>,
    ok: bool,
    k: int,
    stop: int,
    out: Seq<char>,
    refs: Seq<UrlRefV>,
)
    ensures
        starts_with_seq(mw_kids(s, base, ok, k, stop, out, refs).0, out),
    decreases s.len() - k + 1, 0int,
{
    assert(out.take(out.len() as int) =~= out);
    if !(k < 0 || k >= stop || k >= s.len()) {
        let r = mw_node(s, base, ok, k, out, refs);
        lemma_mw_node_extends(s, base, ok, k, out, refs);
        lemma_end_of(s, k);
        lemma_mw_kids_extends(s, base, ok, end_of(s, k), stop, r.0, r.1);
        lemma_prefix_trans(out, r.0, mw_kids(s, base, ok, end_of(s, k), stop, r.0, r.1).0);
    }
}

/// Markdown-walk law, node by node: the walk only appends; text is copied as
/// it is; `<br>` adds exactly one newline and nothing else; `<code>` is
/// written as a backtick, its trimmed inner text, and a backtick; headings
/// open with `#` marks by level, list items with `- `, quotes with `> `,
/// each on a new line; and paragraphs, divisions, sections and headings end
/// their text with a newline.
pub proof fn lemma_markdown_walk_node(s: Seq<RawNode>, base: Seq<char>, ok: bool, j: int, out: Seq<char>, refs: Seq<UrlRefV>)
    requires
        0 <= j < s.len(),
    ensures
        starts_with_seq(mw_node(s, base, ok, j, out, refs).0, out),
        s[j].kind matches NodeKind::Text(t) ==> mw_node(s, base, ok, j, out, refs) == (out + t@, refs),
        node_name(s[j]) == Some("br"@) ==> mw_node(s, base, ok, j, out, refs) == (out.push('\n'), refs),
        node_name(s[j]) == Some("code"@) ==> {
            let inner = mw_kids(s, base, ok, j + 1, end_of(s, j), Seq::<char>::empty(), refs);
            mw_node(s, base, ok, j, out, refs) == (out + "`"@ + trim(inner.0) + "`"@, inner.1)
        },
        node_name(s[j]) == Some("h1"@) ==> starts_with_seq(mw_node(s, base, ok, j, out, refs).0, out + "\n# "@),
        node_name(s[j]) == Some("h2"@) ==> starts_with_seq(mw_node(s, base, ok, j, out, refs).0, out + "\n## "@),
        node_name(s[j]) == Some("h3"@) ==> starts_with_seq(mw_node(s, base, ok, j, out, refs).0, out + "\n### "@),
        node_name(s[j]) == Some("h4"@) ==> starts_with_seq(mw_node(s, base, ok, j, out, refs).0, out + "\n#### "@),
        node_name(s[j]) == Some("h5"@) ==> starts_with_seq(mw_node(s, base, ok, j, out, refs).0, out + "\n##### "@),
        node_name(s[j]) == Some("h6"@) ==> starts_with_seq(mw_node(s, base, ok, j, out, refs).0, out + "\n###### "@),
        node_name(s[j]) == Some("li"@) ==> starts_with_seq(mw_node(s, base, ok, j, out, refs).0, out + "\n- "@),
        node_name(s[j]) == Some("blockquote"@) ==> starts_with_seq(mw_node(s, base, ok, j, out, refs).0, out + "\n> "@),
        node_name(s[j]) == Some("p"@) || node_name(s[j]) == Some("div"@) || node_name(s[j]) == Some("section"@)
            || node_name(s[j]) == Some("h1"@) || node_name(s[j]) == Some("h2"@) || node_name(s[j]) == Some("h3"@)
            || node_name(s[j]) == Some("h4"@) || node_name(s[j]) == Some("h5"@) || node_name(s[j]) == Some("h6"@)
            ==> {
            let r = mw_node(s, base, ok, j, out, refs).0;
            r.len() > 0 && r.last() == '\n'
        },
{
    lemma_md_names();
    lemma_mw_node_extends(s, base, ok, j, out, refs);
    if let NodeKind::Element(name, attrs) = s[j].kind {
        let n = name@;
        let e = end_of(s, j);
        assert(node_name(s[j]) == Some(n));
        if !skippable(n) && n != "br"@ && n != "a"@ && n != "code"@ {
            let out1 = match md_prefix(n) {
                Some(p) => out + p,
                None => out,
            };
            lemma_mw_kids_extends(s, base, ok, j + 1, e, out1, refs);
            let r = mw_kids(s, base, ok, j + 1, e, out1, refs);
            lemma_prefix_append(r.0, seq!['\n']);
            assert(r.0.push('\n') =~= r.0 + seq!['\n']);
            lemma_prefix_trans(out1, r.0, r.0.push('\n'));
        }
    }
}

/// Link law: a link whose href resolves to `u` is written `[text](u)`, with
/// its trimmed text, and `u` is among the references afterwards; a link
/// whose href does not resolve is just its trimmed text.
pub proof fn lemma_markdown_walk_link(
    s: Seq<RawNode>,
    base: Seq<char>,
    ok: bool,
    j: int,
    out: Seq<char>,
    refs: Seq<UrlRefV>,
)
    requires
        0 <= j < s.len(),
        node_name(s[j]) == Some("a"@),
    ensures
        ({
            let inner = trim(mw_kids(s, base, ok, j + 1, end_of(s, j), Seq::<char>::empty(), refs).0);
            let res = mw_node(s, base, ok, j, out, refs);
            let url = match node_attr(s[j], "href"@) {
                Some(h) => resolve_href(base, ok, h),
                None => None,
            };
            &&& url matches Some(u) ==> res.0 == out + "["@ + inner + "]("@ + u + ")"@ && exists|i: int|
                0 <= i < res.1.len() && #[trigger] res.1[i].url == u
            &&& url is None ==> res.0 == out + inner
        }),
{
    lemma_md_names();
    let r = mw_kids(s, base, ok, j + 1, end_of(s, j), Seq::<char>::empty(), refs);
    let inner = trim(r.0);
    let url = match node_attr(s[j], "href"@) {
        Some(h) => resolve_href(base, ok, h),
        None => None,
    };
    let res = mw_node(s, base, ok, j, out, refs);
    if let NodeKind::Element(name, attrs) = s[j].kind {
        assert(name@ == "a"@);
        assert(node_attr(s[j], "href"@) == attr_of(attrs@, "href"@));
    }
    if let Some(u) = url {
        let w = with_ref(r.1, u, inner);
        assert(res == (out + "["@ + inner + "]("@ + u + ")"@, w.1));
        match crate::convert::links::ref_slot(r.1, u) {
            Some(k) => {
                crate::convert::links::lemma_ref_slot(r.1, u);
                assert(res.1[k].url == u);
            },
            None => {
                assert(res.1[r.1.len() as int].url == u);
            },
        }
    } else {
        assert(res == (out + inner, r.1));
    }
}

fn walk_node(nodes: &Vec<RawNode>, j: usize, out: &mut String, refs: &mut RefCollector)
    requires
        j < nodes@.len(),
        refs_wf(old(refs).refs()),
        old(refs).refs().len() + (end_of(nodes@, j as int) - j) <= usize::MAX,
    ensures
        (final(out)@, final(refs).refs()) == mw_node(
            nodes@,
            old(refs).base(),
            old(refs).base_ok(),
            j as int,
            old(out)@,
            old(refs).refs(),
        ),
        refs_wf(final(refs).refs()),
        final(refs).refs().len() <= old(refs).refs().len() + (end_of(nodes@, j as int) - j),
        final(refs).base() == old(refs).base(),
        final(refs).base_ok() == old(refs).base_ok(),
    decreases nodes@.len() - j, 1int,
{
    proof {
        lemma_end_of(nodes@, j as int);
    }
    match &nodes[j].kind {
        NodeKind::Text(t) => {
            push_str(out, t.as_str());
        },
        NodeKind::Other => {},
        NodeKind::Element(name, attrs) => {
            let name = name.as_str();
            if is_skippable(name) {
                return;
            }
            if str_eq(name, "br") {
                push_char(out, '\n');
                return;
            }
            if str_eq(name, "a") {
                let mut inner = String::new();
                walk_kids(nodes, j, &mut inner, refs);
                let inner = trim_str(inner.as_str());
                let url = match attr_value(attrs, "href") {
                    Some(href) => refs.resolve(href),
                    None => None,
                };
                match url {
                    Some(u) => {
                        push_char(out, '[');
                        push_str(out, inner.as_str());
                        push_str(out, "](");
                        push_str(out, u.as_str());
                        push_char(out, ')');
                        proof {
                            reveal_strlit("](");
                        }
                        let _ = refs.index_for(u, inner.as_str());
                        proof {
                            reveal_strlit("[");
                            reveal_strlit(")");
                        }
                    },
                    None => {
                        push_str(out, inner.as_str());
                    },
                }
                return;
            }
            if str_eq(name, "code") {
                let mut inner = String::new();
                walk_kids(nodes, j, &mut inner, refs);
                let inner = trim_str(inner.as_str());
                push_char(out, '`');
                push_str(out, inner.as_str());
                push_char(out, '`');
                proof {
                    reveal_strlit("`");
                }
                return;
            }
            if let Some(p) = prefix_for(name) {
                push_str(out, p);
            }
            walk_kids(nodes, j, out, refs);
            if breaks_after(name) {
                push_char(out, '\n');
            }
        },
    }
}

fn walk_kids(nodes: &Vec<RawNode>, p: usize, out: &mut String, refs: &mut RefCollector)
    requires
        p < nodes@.len(),
        refs_wf(old(refs).refs()),
        old(refs).refs().len() + (end_of(nodes@, p as int) - p - 1) <= usize::MAX,
    ensures
        (final(out)@, final(refs).refs()) == mw_kids(
            nodes@,
            old(refs).base(),
            old(refs).base_ok(),
            p + 1,
            end_of(nodes@, p as int),
            old(out)@,
            old(refs).refs(),
        ),
        refs_wf(final(refs).refs()),
        final(refs).refs().len() <= old(refs).refs().len() + (end_of(nodes@, p as int) - p - 1),
        final(refs).base() == old(refs).base(),
        final(refs).base_ok() == old(refs).base_ok(),
    decreases nodes@.len() - p, 0int,
{
    let ghost s = nodes@;
    let ghost base = refs.base();
    let ghost ok = refs.base_ok();
    let ghost out0 = out@;
    let ghost refs0 = refs.refs();
    let e = subtree_end(nodes, p);
    let mut k = p + 1;
    while k < e
        invariant
            s == nodes@,
            p < k <= e,
            e == end_of(s, p as int),
            e <= s.len(),
            refs.base() == base,
            refs.base_ok() == ok,
            refs_wf(refs.refs()),
            refs.refs().len() <= refs0.len() + (k - p - 1),
            refs0.len() + (e - p - 1) <= usize::MAX,
            mw_kids(s, base, ok, p + 1, e as int, out0, refs0) == mw_kids(
                s,
                base,
                ok,
                k as int,
                e as int,
                out@,
                refs.refs(),
            ),
        decreases e - k,
    {
        proof {
            lemma_end_nested(s, p as int, k as int);
        }
        let ghost before = (out@, refs.refs());
        walk_node(nodes, k, out, refs);
        proof {
            assert(mw_kids(s, base, ok, k as int, e as int, before.0, before.1) == mw_kids(
                s,
                base,
                ok,
                end_of(s, k as int),
                e as int,
                out@,
                refs.refs(),
            ));
        }
        k = subtree_end(nodes, k);
    }
}

/// The markdown and references of a whole page.
pub open spec fn markdown_walk(s: Seq<RawNode>, base: Seq<char>) -> (Seq<char>, Seq<UrlRefV>) {
    match content_root_of(s) {
        Some(r) => mw_kids(
            s,
            base,
            url_serialized(base) is Some,
            r + 1,
            end_of(s, r),
            Seq::<char>::empty(),
            Seq::<UrlRefV>::empty(),
        ),
        None => (Seq::<char>::empty(), Seq::<UrlRefV>::empty()),
    }
}

/// Convert a parsed document to markdown, also returning the links it
/// contains, numbered from 1 with no gaps and each URL listed once.
pub fn markdown_with_refs(nodes: &Vec<RawNode>, base_url: &str) -> (r: (String, Vec<UrlReference>))
    ensures
        (r.0@, urefs_view(r.1@)) == markdown_walk(nodes@, base_url@),
        refs_wf(urefs_view(r.1@)),
{
    let root = match content_root(nodes) {
        Some(k) => k,
        None => {
            let v: Vec<UrlReference> = Vec::new();
            assert(urefs_view(v@) =~= Seq::<UrlRefV>::empty());
            return (String::new(), v);
        },
    };
    let n = nodes.len();
    let mut refs = RefCollector::new(base_url);
    let mut out = String::new();
    proof {
        lemma_end_of(nodes@, root as int);
        assert(refs.refs() =~= Seq::<UrlRefV>::empty());
        assert(out@ =~= Seq::<char>::empty());
    }
    walk_kids(nodes, root, &mut out, &mut refs);
    let v = refs.into_references();
    (out, v)
}

/// [`markdown_with_refs`] for callers holding raw HTML.
pub fn html_to_markdown(html: &str, base_url: &str) -> (r: String)
    ensures
        r@ == markdown_walk(parsed_nodes(html@), base_url@).0,
{
    let nodes = parse_html(html);
    markdown_with_refs(&nodes, base_url).0
}

} // verus!
