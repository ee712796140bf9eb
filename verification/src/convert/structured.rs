//! Structured conversion: the page as an ordered list of typed blocks,
//! serialized to JSON. Links are preserved as reference indices, as in the
//! text path, so structured output is both machine-parseable and frugal.

use vstd::prelude::*;

use crate::compress::{compress_spec, compress_text, cost_q, estimate_tokens, lemma_cost_bounds, lemma_cost_concat, tokens};
use crate::convert::links::{refs_wf, resolve_href, url_serialized, with_ref, RefCollector};
use crate::convert::text::{is_skippable, marker, push_marker, skippable};
use crate::dom::{attr_of, attr_value, node_name, collect_text, element_text, end_of, lemma_end_nested, lemma_end_of, parse_html, parsed_nodes, subtree_end, NodeKind, RawNode};
use crate::extract::{content_root, content_root_of};
use crate::json::{json_str, push_json_str};
use crate::refs::{cited_indices, cited_set, cites_before, digits_value, marker_at};
use crate::text::{bytes_of, decimal, lemma_bytes_concat, push_char, push_str, str_eq, usize_to_string};
use crate::types::{urefs_view, UrlRefV, UrlReference};

verus! {

/// The document as blocks, plus the references their markers cite.
#[derive(Debug, Clone)]
pub struct StructuredDoc {
    pub blocks: Vec<Block>,
    pub references: Vec<UrlReference>,
}

/// One block of a page.
#[derive(Debug, Clone, PartialEq, Eq)]
pub struct Block {
    pub kind: BlockKind,
    /// Heading depth (1-6), present on headings only.
    pub level: Option<u8>,
    pub text: String,
}

/// The kind of element a block came from.
#[derive(Debug, Clone, Copy, PartialEq, Eq, Structural)]
pub enum BlockKind {
    Heading,
    Paragraph,
    ListItem,
    Code,
    Quote,
    TableRow,
}

/// The content of a [`Block`].
pub struct BlockV {
    pub kind: BlockKind,
    pub level: Option<u8>,
    pub text: Seq<char>,
}

impl View for Block {
    type V = BlockV;

    open spec fn view(&self) -> BlockV {
        BlockV { kind: self.kind, level: self.level, text: self.text@ }
    }
}

/// The contents of a list of blocks.
pub open spec fn blocks_view(v: Seq<Block>) -> Seq<BlockV> {
    v.map_values(|b: Block| b@)
}

proof fn lemma_blocks_push(v: Seq<Block>, b: Block)
    ensures
        blocks_view(v.push(b)) == blocks_view(v).push(b@),
{
    assert(blocks_view(v.push(b)) =~= blocks_view(v).push(b@));
}

/// Elements that open a block, and the kind and heading level they produce.
pub open spec fn kind_of(n: Seq<char>) -> Option<(BlockKind, Option<u8>)> {
    if n == "h1"@ {
        Some((BlockKind::Heading, Some(1u8)))
    } else if n == "h2"@ {
        Some((BlockKind::Heading, Some(2u8)))
    } else if n == "h3"@ {
        Some((BlockKind::Heading, Some(3u8)))
    } else if n == "h4"@ {
        Some((BlockKind::Heading, Some(4u8)))
    } else if n == "h5"@ {
        Some((BlockKind::Heading, Some(5u8)))
    } else if n == "h6"@ {
        Some((BlockKind::Heading, Some(6u8)))
    } else if n == "li"@ {
        Some((BlockKind::ListItem, None))
    } else if n == "pre"@ {
        Some((BlockKind::Code, None))
    } else if n == "blockquote"@ {
        Some((BlockKind::Quote, None))
    } else if n == "tr"@ {
        Some((BlockKind::TableRow, None))
    } else if n == "p"@ {
        Some((BlockKind::Paragraph, None))
    } else {
        None
    }
}

fn block_kind(n: &str) -> (r: Option<(BlockKind, Option<u8>)>)
    ensures
        r == kind_of(n@),
{
    if str_eq(n, "h1") {
        Some((BlockKind::Heading, Some(1)))
    } else if str_eq(n, "h2") {
        Some((BlockKind::Heading, Some(2)))
    } else if str_eq(n, "h3") {
        Some((BlockKind::Heading, Some(3)))
    } else if str_eq(n, "h4") {
        Some((BlockKind::Heading, Some(4)))
    } else if str_eq(n, "h5") {
        Some((BlockKind::Heading, Some(5)))
    } else if str_eq(n, "h6") {
        Some((BlockKind::Heading, Some(6)))
    } else if str_eq(n, "li") {
        Some((BlockKind::ListItem, None))
    } else if str_eq(n, "pre") {
        Some((BlockKind::Code, None))
    } else if str_eq(n, "blockquote") {
        Some((BlockKind::Quote, None))
    } else if str_eq(n, "tr") {
        Some((BlockKind::TableRow, None))
    } else if str_eq(n, "p") {
        Some((BlockKind::Paragraph, None))
    } else {
        None
    }
}

/// The blocks after loose text is flushed: it becomes a paragraph when it
/// compresses to anything.
pub open spec fn flushed(blocks: Seq<BlockV>, loose: Seq<char>) -> Seq<BlockV> {
    let t = compress_spec(loose);
    if t.len() > 0 {
        blocks.push(BlockV { kind: BlockKind::Paragraph, level: None, text: t })
    } else {
        blocks
    }
}

/// What the structured walk makes of the node at `j`, given the blocks, the
/// loose text not yet in a block, and the references so far. Text joins the
/// loose text; a link adds its compressed text and the marker of its URL; a
/// block element flushes the loose text, then becomes a block of its own
/// compressed content when that is not empty; `<br>` and table cells add a
/// space; other elements are transparent.
pub open spec fn sw_node(
    s: Seq<RawNode>,
    base: Seq<char>,
    ok: bool,
    j: int,
    blocks: Seq<BlockV>,
    loose: Seq<char>,
    refs: Seq<UrlRefV>,
) -> (Seq<BlockV>, Seq<char>, Seq<UrlRefV>)
    decreases s.len() - j, 1int,
{
    if j < 0 || j >= s.len() {
        (blocks, loose, refs)
    } else {
        match s[j].kind {
            NodeKind::Text(t) => (blocks, loose + t@, refs),
            NodeKind::Other => (blocks, loose, refs),
            NodeKind::Element(name, attrs) => {
                let n = name@;
                let e = end_of(s, j);
                if skippable(n) {
                    (blocks, loose, refs)
                } else if n == "a"@ {
                    let inner = compress_spec(element_text(s, j));
                    let loose1 = loose + inner;
                    match attr_of(attrs@, "href"@) {
                        Some(h) => match resolve_href(base, ok, h) {
                            Some(u) => {
                                let w = with_ref(refs, u, inner);
                                (blocks, loose1 + marker(w.0), w.1)
                            },
                            None => (blocks, loose1, refs),
                        },
                        None => (blocks, loose1, refs),
                    }
                } else {
                    match kind_of(n) {
                        Some(kl) => {
                            let b1 = flushed(blocks, loose);
                            let r = sw_kids(s, base, ok, j + 1, e, b1, Seq::<char>::empty(), refs);
                            let text = compress_spec(r.1);
                            (
                                if text.len() > 0 {
                                    r.0.push(BlockV { kind: kl.0, level: kl.1, text })
                                } else {
                                    r.0
                                },
                                Seq::<char>::empty(),
                                r.2,
                            )
                        },
                        None => {
                            let loose1 = if n == "br"@ || n == "td"@ || n == "th"@ {
                                loose.push(' ')
                            } else {
                                loose
                            };
                            sw_kids(s, base, ok, j + 1, e, blocks, loose1, refs)
                        },
                    }
                }
            },
        }
    }
}

/// How the structured walk reads each tag name it treats on its own.
proof fn lemma_structured_names()
    ensures
        !skippable("h1"@),
        "h1"@ != "a"@,
        kind_of("h1"@) == Some((BlockKind::Heading, Some(1u8))),
        !skippable("h2"@),
        "h2"@ != "a"@,
        kind_of("h2"@) == Some((BlockKind::Heading, Some(2u8))),
        !skippable("h3"@),
        "h3"@ != "a"@,
        kind_of("h3"@) == Some((BlockKind::Heading, Some(3u8))),
        !skippable("h4"@),
        "h4"@ != "a"@,
        kind_of("h4"@) == Some((BlockKind::Heading, Some(4u8))),
        !skippable("h5"@),
        "h5"@ != "a"@,
        kind_of("h5"@) == Some((BlockKind::Heading, Some(5u8))),
        !skippable("h6"@),
        "h6"@ != "a"@,
        kind_of("h6"@) == Some((BlockKind::Heading, Some(6u8))),
        !skippable("li"@),
        "li"@ != "a"@,
        kind_of("li"@) == Some((BlockKind::ListItem, None::<u8>)),
        !skippable("pre"@),
        "pre"@ != "a"@,
        kind_of("pre"@) == Some((BlockKind::Code, None::<u8>)),
        !skippable("blockquote"@),
        "blockquote"@ != "a"@,
        kind_of("blockquote"@) == Some((BlockKind::Quote, None::<u8>)),
        !skippable("tr"@),
        "tr"@ != "a"@,
        kind_of("tr"@) == Some((BlockKind::TableRow, None::<u8>)),
        !skippable("p"@),
        "p"@ != "a"@,
        kind_of("p"@) == Some((BlockKind::Paragraph, None::<u8>)),
        !skippable("br"@),
        "br"@ != "a"@,
        kind_of("br"@) is None,
        !skippable("td"@),
        "td"@ != "a"@,
        kind_of("td"@) is None,
        !skippable("th"@),
        "th"@ != "a"@,
        kind_of("th"@) is None,
        !skippable("a"@),
{
    reveal_strlit("a");
    reveal_strlit("blockquote");
    reveal_strlit("br");
    reveal_strlit("h1");
    reveal_strlit("h2");
    reveal_strlit("h3");
    reveal_strlit("h4");
    reveal_strlit("h5");
    reveal_strlit("h6");
    reveal_strlit("head");
    reveal_strlit("iframe");
    reveal_strlit("li");
    reveal_strlit("noscript");
    reveal_strlit("p");
    reveal_strlit("pre");
    reveal_strlit("script");
    reveal_strlit("style");
    reveal_strlit("svg");
    reveal_strlit("td");
    reveal_strlit("template");
    reveal_strlit("th");
    reveal_strlit("tr");
    assert("a"@.len() == 1);
    assert("blockquote"@.len() == 10);
    assert("br"@.len() == 2);
    assert("h1"@.len() == 2);
    assert("h2"@.len() == 2);
    assert("h3"@.len() == 2);
    assert("h4"@.len() == 2);
    assert("h5"@.len() == 2);
    assert("h6"@.len() == 2);
    assert("head"@.len() == 4);
    assert("iframe"@.len() == 6);
    assert("li"@.len() == 2);
    assert("noscript"@.len() == 8);
    assert("p"@.len() == 1);
    assert("pre"@.len() == 3);
    assert("script"@.len() == 6);
    assert("style"@.len() == 5);
    assert("svg"@.len() == 3);
    assert("td"@.len() == 2);
    assert("template"@.len() == 8);
    assert("th"@.len() == 2);
    assert("tr"@.len() == 2);
    assert("a"@[0] != "p"@[0]);
    assert("br"@[0] != "h1"@[0]);
    assert("br"@[0] != "h2"@[0]);
    assert("br"@[0] != "h3"@[0]);
    assert("br"@[0] != "h4"@[0]);
    assert("br"@[0] != "h5"@[0]);
    assert("br"@[0] != "h6"@[0]);
    assert("br"@[0] != "li"@[0]);
    assert("br"@[0] != "td"@[0]);
    assert("br"@[0] != "th"@[0]);
    assert("br"@[0] != "tr"@[0]);
    assert("h1"@[0] != "li"@[0]);
    assert("h1"@[0] != "td"@[0]);
    assert("h1"@[0] != "th"@[0]);
    assert("h1"@[0] != "tr"@[0]);
    assert("h1"@[1] != "h2"@[1]);
    assert("h1"@[1] != "h3"@[1]);
    assert("h1"@[1] != "h4"@[1]);
    assert("h1"@[1] != "h5"@[1]);
    assert("h1"@[1] != "h6"@[1]);
    assert("h2"@[0] != "li"@[0]);
    assert("h2"@[0] != "td"@[0]);
    assert("h2"@[0] != "th"@[0]);
    assert("h2"@[0] != "tr"@[0]);
    assert("h2"@[1] != "h3"@[1]);
    assert("h2"@[1] != "h4"@[1]);
    assert("h2"@[1] != "h5"@[1]);
    assert("h2"@[1] != "h6"@[1]);
    assert("h3"@[0] != "li"@[0]);
    assert("h3"@[0] != "td"@[0]);
    assert("h3"@[0] != "th"@[0]);
    assert("h3"@[0] != "tr"@[0]);
    assert("h3"@[1] != "h4"@[1]);
    assert("h3"@[1] != "h5"@[1]);
    assert("h3"@[1] != "h6"@[1]);
    assert("h4"@[0] != "li"@[0]);
    assert("h4"@[0] != "td"@[0]);
    assert("h4"@[0] != "th"@[0]);
    assert("h4"@[0] != "tr"@[0]);
    assert("h4"@[1] != "h5"@[1]);
    assert("h4"@[1] != "h6"@[1]);
    assert("h5"@[0] != "li"@[0]);
    assert("h5"@[0] != "td"@[0]);
    assert("h5"@[0] != "th"@[0]);
    assert("h5"@[0] != "tr"@[0]);
    assert("h5"@[1] != "h6"@[1]);
    assert("h6"@[0] != "li"@[0]);
    assert("h6"@[0] != "td"@[0]);
    assert("h6"@[0] != "th"@[0]);
    assert("h6"@[0] != "tr"@[0]);
    assert("li"@[0] != "td"@[0]);
    assert("li"@[0] != "th"@[0]);
    assert("li"@[0] != "tr"@[0]);
    assert("pre"@[0] != "svg"@[0]);
    assert("td"@[1] != "th"@[1]);
    assert("td"@[1] != "tr"@[1]);
    assert("th"@[1] != "tr"@[1]);
}

/// What a block element makes: the loose text so far becomes a paragraph
/// (when it has any), the element's children are walked, and their
/// compressed text, when not empty, becomes one block of the given kind and
/// level; no loose text remains.
pub open spec fn block_made(
    s: Seq<RawNode>,
    base: Seq<char>,
    ok: bool,
    j: int,
    blocks: Seq<BlockV>,
    loose: Seq<char>,
    refs: Seq<UrlRefV>,
    kind: BlockKind,
    level: Option<u8>,
) -> bool {
    let r = sw_kids(s, base, ok, j + 1, end_of(s, j), flushed(blocks, loose), Seq::<char>::empty(), refs);
    let text = compress_spec(r.1);
    sw_node(s, base, ok, j, blocks, loose, refs) == (
        if text.len() > 0 {
            r.0.push(BlockV { kind, level, text })
        } else {
            r.0
        },
        Seq::<char>::empty(),
        r.2,
    )
}

/// Structured-walk law, node by node: text joins the loose text; headings
/// become heading blocks of their level, list items list-item blocks,
/// preformatted text code blocks, quotes quote blocks, table rows table-row
/// blocks and paragraphs paragraph blocks; and `<br>` and table cells set
/// their content off from what came before with a space.
pub proof fn lemma_structured_walk_node(
    s: Seq<RawNode>,
    base: Seq<char>,
    ok: bool,
    j: int,
    blocks: Seq<BlockV>,
    loose: Seq<char>,
    refs: Seq<UrlRefV>,
)
    requires
        0 <= j < s.len(),
    ensures
        s[j].kind matches NodeKind::Text(t) ==> sw_node(s, base, ok, j, blocks, loose, refs) == (blocks, loose + t@, refs),
        node_name(s[j]) == Some("h1"@) ==> block_made(s, base, ok, j, blocks, loose, refs, BlockKind::Heading, Some(1u8)),
        node_name(s[j]) == Some("h2"@) ==> block_made(s, base, ok, j, blocks, loose, refs, BlockKind::Heading, Some(2u8)),
        node_name(s[j]) == Some("h3"@) ==> block_made(s, base, ok, j, blocks, loose, refs, BlockKind::Heading, Some(3u8)),
        node_name(s[j]) == Some("h4"@) ==> block_made(s, base, ok, j, blocks, loose, refs, BlockKind::Heading, Some(4u8)),
        node_name(s[j]) == Some("h5"@) ==> block_made(s, base, ok, j, blocks, loose, refs, BlockKind::Heading, Some(5u8)),
        node_name(s[j]) == Some("h6"@) ==> block_made(s, base, ok, j, blocks, loose, refs, BlockKind::Heading, Some(6u8)),
        node_name(s[j]) == Some("li"@) ==> block_made(s, base, ok, j, blocks, loose, refs, BlockKind::ListItem, None::<u8>),
        node_name(s[j]) == Some("pre"@) ==> block_made(s, base, ok, j, blocks, loose, refs, BlockKind::Code, None::<u8>),
        node_name(s[j]) == Some("blockquote"@) ==> block_made(s, base, ok, j, blocks, loose, refs, BlockKind::Quote, None::<u8>),
        node_name(s[j]) == Some("tr"@) ==> block_made(s, base, ok, j, blocks, loose, refs, BlockKind::TableRow, None::<u8>),
        node_name(s[j]) == Some("p"@) ==> block_made(s, base, ok, j, blocks, loose, refs, BlockKind::Paragraph, None::<u8>),
        node_name(s[j]) == Some("br"@) || node_name(s[j]) == Some("td"@) || node_name(s[j]) == Some("th"@)
            ==> sw_node(s, base, ok, j, blocks, loose, refs) == sw_kids(
            s,
            base,
            ok,
            j + 1,
            end_of(s, j),
            blocks,
            loose.push(' '),
            refs,
        ),
{
    lemma_structured_names();
    if let NodeKind::Element(name, attrs) = s[j].kind {
        assert(node_name(s[j]) == Some(name@));
    }
}

/// The structured walk over the children at `k..stop`.
pub open spec fn sw_kids(
    s: Seq<RawNode>,
    base: Seq<char>,
    ok: bool,
    k: int,
    stop: int,
    blocks: Seq<BlockV>,
    loose: Seq<char>,
    refs: Seq<UrlRefV>,
) -> (Seq<BlockV>, Seq<char>, Seq<UrlRefV>)
    decreases s.len() - k + 1, 0int,
{
    if k < 0 || k >= stop || k >= s.len() {
        (blocks, loose, refs)
    } else {
        let r = sw_node(s, base, ok, k, blocks, loose, refs);
        proof {
            lemma_end_of(s, k);
        }
        sw_kids(s, base, ok, end_of(s, k), stop, r.0, r.1, r.2)
    }
}

/// Emit the loose text as a paragraph block, and clear it.
fn flush(blocks: &mut Vec<Block>, loose: &mut String)
    ensures
        blocks_view(final(blocks)@) == flushed(blocks_view(old(blocks)@), old(loose)@),
        final(loose)@ == Seq::<char>::empty(),
{
    let text = compress_text(loose.as_str());
    *loose = String::new();
    if !text.as_str().is_empty() {
        let ghost before = blocks@;
        let b = Block { kind: BlockKind::Paragraph, level: None, text };
        blocks.push(b);
        proof {
            lemma_blocks_push(before, b);
        }
    }
}

fn walk_node(
    nodes: &Vec<RawNode>,
    j: usize,
    blocks: &mut Vec<Block>,
    loose: &mut String,
    refs: &mut RefCollector,
)
    requires
        j < nodes@.len(),
        refs_wf(old(refs).refs()),
        old(refs).refs().len() + (end_of(nodes@, j as int) - j) <= usize::MAX,
    ensures
        (blocks_view(final(blocks)@), final(loose)@, final(refs).refs()) == sw_node(
            nodes@,
            old(refs).base(),
            old(refs).base_ok(),
            j as int,
            blocks_view(old(blocks)@),
            old(loose)@,
            old(refs).refs(),
        ),
        refs_wf(final(refs).refs()),
        final(refs).refs().len() <= old(refs).refs().len() + (end_of(nodes@, j as int) - j),
        final(refs).base() == old(refs).base(),
        final(refs).base_ok() == old(refs).base_ok(),
    decreases nodes@.len() - j, 1int,
{
    proof {
        lemma_end_of(nodes@, j as int);
    }
    match &nodes[j].kind {
        NodeKind::Text(t) => {
            push_str(loose, t.as_str());
        },
        NodeKind::Other => {},
        NodeKind::Element(name, attrs) => {
            let name = name.as_str();
            if is_skippable(name) {
                return;
            }
            if str_eq(name, "a") {
                let e = subtree_end(nodes, j);
                let all = collect_text(nodes, j + 1, e);
                let inner = compress_text(all.as_str());
                push_str(loose, inner.as_str());
                if let Some(href) = attr_value(attrs, "href") {
                    if let Some(url) = refs.resolve(href) {
                        let idx = refs.index_for(url, inner.as_str());
                        push_marker(loose, idx);
                    }
                }
                return;
            }
            match block_kind(name) {
                Some((kind, level)) => {
                    flush(blocks, loose);
                    let mut inner = String::new();
                    walk_kids(nodes, j, blocks, &mut inner, refs);
                    let text = compress_text(inner.as_str());
                    if !text.as_str().is_empty() {
                        let ghost before = blocks@;
                        let b = Block { kind, level, text };
                        blocks.push(b);
                        proof {
                            lemma_blocks_push(before, b);
                        }
                    }
                },
                None => {
                    if str_eq(name, "br") || str_eq(name, "td") || str_eq(name, "th") {
                        push_char(loose, ' ');
                    }
                    walk_kids(nodes, j, blocks, loose, refs);
                },
            }
        },
    }
}

fn walk_kids(
    nodes: &Vec<RawNode>,
    p: usize,
    blocks: &mut Vec<Block>,
    loose: &mut String,
    refs: &mut RefCollector,
)
    requires
        p < nodes@.len(),
        refs_wf(old(refs).refs()),
        old(refs).refs().len() + (end_of(nodes@, p as int) - p - 1) <= usize::MAX,
    ensures
        (blocks_view(final(blocks)@), final(loose)@, final(refs).refs()) == sw_kids(
            nodes@,
            old(refs).base(),
            old(refs).base_ok(),
            p + 1,
            end_of(nodes@, p as int),
            blocks_view(old(blocks)@),
            old(loose)@,
            old(refs).refs(),
        ),
        refs_wf(final(refs).refs()),
        final(refs).refs().len() <= old(refs).refs().len() + (end_of(nodes@, p as int) - p - 1),
        final(refs).base() == old(refs).base(),
        final(refs).base_ok() == old(refs).base_ok(),
    decreases nodes@.len() - p, 0int,
{
    let ghost s = nodes@;
    let ghost base = refs.base();
    let ghost ok = refs.base_ok();
    let ghost b0 = blocks_view(blocks@);
    let ghost l0 = loose@;
    let ghost refs0 = refs.refs();
    let e = subtree_end(nodes, p);
    let mut k = p + 1;
    while k < e
        invariant
            s == nodes@,
            p < k <= e,
            e == end_of(s, p as int),
            e <= s.len(),
            refs.base() == base,
            refs.base_ok() == ok,
            refs_wf(refs.refs()),
            refs.refs().len() <= refs0.len() + (k - p - 1),
            refs0.len() + (e - p - 1) <= usize::MAX,
            sw_kids(s, base, ok, p + 1, e as int, b0, l0, refs0) == sw_kids(
                s,
                base,
                ok,
                k as int,
                e as int,
                blocks_view(blocks@),
                loose@,
                refs.refs(),
            ),
        decreases e - k,
    {
        proof {
            lemma_end_nested(s, p as int, k as int);
        }
        walk_node(nodes, k, blocks, loose, refs);
        k = subtree_end(nodes, k);
    }
}

/// The blocks and references of a whole page: the walk over the children
/// of its content root, with the loose text left at the end flushed.
pub open spec fn structured_walk(s: Seq<RawNode>, base: Seq<char>) -> (Seq<BlockV>, Seq<UrlRefV>) {
    match content_root_of(s) {
        Some(r) => {
            let w = sw_kids(
                s,
                base,
                url_serialized(base) is Some,
                r + 1,
                end_of(s, r),
                Seq::<BlockV>::empty(),
                Seq::<char>::empty(),
                Seq::<UrlRefV>::empty(),
            );
            (flushed(w.0, w.1), w.2)
        },
        None => (Seq::<BlockV>::empty(), Seq::<UrlRefV>::empty()),
    }
}

/// Build a structured document from a parsed page. Its references are
/// numbered from 1 with no gaps, each URL listed once.
pub fn structured(nodes: &Vec<RawNode>, base_url: &str) -> (r: StructuredDoc)
    ensures
        (blocks_view(r.blocks@), urefs_view(r.references@)) == structured_walk(nodes@, base_url@),
        refs_wf(urefs_view(r.references@)),
{
    let root = match content_root(nodes) {
        Some(k) => k,
        None => {
            let blocks: Vec<Block> = Vec::new();
            let references: Vec<UrlReference> = Vec::new();
            assert(blocks_view(blocks@) =~= Seq::<BlockV>::empty());
            assert(urefs_view(references@) =~= Seq::<UrlRefV>::empty());
            return StructuredDoc { blocks, references };
        },
    };
    let n = nodes.len();
    let mut refs = RefCollector::new(base_url);
    let mut blocks: Vec<Block> = Vec::new();
    let mut loose = String::new();
    proof {
        lemma_end_of(nodes@, root as int);
        assert(refs.refs() =~= Seq::<UrlRefV>::empty());
        assert(blocks_view(blocks@) =~= Seq::<BlockV>::empty());
    }
    walk_kids(nodes, root, &mut blocks, &mut loose, &mut refs);
    flush(&mut blocks, &mut loose);
    StructuredDoc { blocks, references: refs.into_references() }
}

/// [`structured`] for callers holding raw HTML.
pub fn html_to_structured(html: &str, base_url: &str) -> (r: StructuredDoc)
    ensures
        (blocks_view(r.blocks@), urefs_view(r.references@)) == structured_walk(
            parsed_nodes(html@),
            base_url@,
        ),
        refs_wf(urefs_view(r.references@)),
{
    let nodes = parse_html(html);
    structured(&nodes, base_url)
}


/// The name a block kind is serialized as.
pub open spec fn kind_name(k: BlockKind) -> Seq<char> {
    match k {
        BlockKind::Heading => "heading"@,
        BlockKind::Paragraph => "paragraph"@,
        BlockKind::ListItem => "listitem"@,
        BlockKind::Code => "code"@,
        BlockKind::Quote => "quote"@,
        BlockKind::TableRow => "tablerow"@,
    }
}

fn kind_str(k: BlockKind) -> (r: &'static str)
    ensures
        r@ == kind_name(k),
{
    match k {
        BlockKind::Heading => "heading",
        BlockKind::Paragraph => "paragraph",
        BlockKind::ListItem => "listitem",
        BlockKind::Code => "code",
        BlockKind::Quote => "quote",
        BlockKind::TableRow => "tablerow",
    }
}

/// One block as a pretty-printed JSON object, indented as an array element:
/// its kind, its level when it has one, and its text.
pub open spec fn block_json(b: BlockV) -> Seq<char> {
    "    {\n      \"kind\": \""@ + kind_name(b.kind) + "\",\n"@ + match b.level {
        Some(l) => "      \"level\": "@ + decimal(l as nat) + ",\n"@,
        None => Seq::<char>::empty(),
    } + "      \"text\": "@ + json_str(b.text) + "\n    }"@
}

/// One reference as a pretty-printed JSON object: index, URL, anchor text.
pub open spec fn ref_json(r: UrlRefV) -> Seq<char> {
    "    {\n      \"index\": "@ + decimal(r.index as nat) + ",\n      \"url\": "@ + json_str(r.url)
        + ",\n      \"text\": "@ + json_str(r.text) + "\n    }"@
}

/// Items separated by `,` and a line break.
pub open spec fn joined(items: Seq<Seq<char>>) -> Seq<char>
    decreases items.len(),
{
    if items.len() == 0 {
        Seq::<char>::empty()
    } else if items.len() == 1 {
        items[0]
    } else {
        joined(items.drop_last()) + ",\n"@ + items.last()
    }
}

/// A pretty-printed JSON array of already rendered items: `[]` when empty.
pub open spec fn json_list(items: Seq<Seq<char>>) -> Seq<char> {
    if items.len() == 0 {
        "[]"@
    } else {
        "[\n"@ + joined(items) + "\n  ]"@
    }
}

/// A structured document as pretty-printed JSON: an object with its
/// `blocks` and then its `references`, indented by two spaces per level.
pub open spec fn doc_json(blocks: Seq<BlockV>, refs: Seq<UrlRefV>) -> Seq<char> {
    "{\n  \"blocks\": "@ + json_list(blocks.map_values(|b: BlockV| block_json(b)))
        + ",\n  \"references\": "@ + json_list(refs.map_values(|r: UrlRefV| ref_json(r)))
        + "\n}"@
}

fn push_block(out: &mut String, b: &Block)
    ensures
        final(out)@ == old(out)@ + block_json(b@),
{
    push_str(out, "    {\n      \"kind\": \"");
    push_str(out, kind_str(b.kind));
    push_str(out, "\",\n");
    let ghost mid = out@;
    match b.level {
        Some(l) => {
            push_str(out, "      \"level\": ");
            let n = usize_to_string(l as usize);
            push_str(out, n.as_str());
            push_str(out, ",\n");
        },
        None => {},
    }
    let ghost lv = match b.level {
        Some(l) => "      \"level\": "@ + decimal(l as nat) + ",\n"@,
        None => Seq::<char>::empty(),
    };
    assert(out@ =~= mid + lv);
    push_str(out, "      \"text\": ");
    push_json_str(out, b.text.as_str());
    push_str(out, "\n    }");
    assert(final(out)@ =~= old(out)@ + block_json(b@));
}

fn push_ref(out: &mut String, r: &UrlReference)
    ensures
        final(out)@ == old(out)@ + ref_json(r@),
{
    push_str(out, "    {\n      \"index\": ");
    let n = usize_to_string(r.index);
    push_str(out, n.as_str());
    push_str(out, ",\n      \"url\": ");
    push_json_str(out, r.url.as_str());
    push_str(out, ",\n      \"text\": ");
    push_json_str(out, r.text.as_str());
    push_str(out, "\n    }");
    assert(final(out)@ =~= old(out)@ + ref_json(r@));
}

fn push_blocks(out: &mut String, blocks: &[Block])
    ensures
        final(out)@ == old(out)@ + json_list(blocks_view(blocks@).map_values(|b: BlockV| block_json(b))),
{
    let ghost items = blocks_view(blocks@).map_values(|b: BlockV| block_json(b));
    if blocks.len() == 0 {
        push_str(out, "[]");
        return;
    }
    push_str(out, "[\n");
    let ghost start = out@;
    let mut i: usize = 0;
    while i < blocks.len()
        invariant
            i <= blocks@.len(),
            items == blocks_view(blocks@).map_values(|b: BlockV| block_json(b)),
            out@ == start + joined(items.take(i as int)),
        decreases blocks.len() - i,
    {
        let ghost before = out@;
        if i > 0 {
            push_str(out, ",\n");
        }
        push_block(out, &blocks[i]);
        proof {
            let t = items.take(i + 1);
            assert(t.drop_last() =~= items.take(i as int));
            assert(t.last() == block_json(blocks@[i as int]@));
            if i == 0 {
                assert(items.take(0) =~= Seq::<Seq<char>>::empty());
                assert(out@ =~= start + joined(t));
            } else {
                assert(out@ =~= start + joined(t));
            }
        }
        i += 1;
    }
    push_str(out, "\n  ]");
    proof {
        assert(items.take(blocks@.len() as int) =~= items);
    }
}

fn push_refs(out: &mut String, refs: &[UrlReference])
    ensures
        final(out)@ == old(out)@ + json_list(urefs_view(refs@).map_values(|r: UrlRefV| ref_json(r))),
{
    let ghost items = urefs_view(refs@).map_values(|r: UrlRefV| ref_json(r));
    if refs.len() == 0 {
        push_str(out, "[]");
        return;
    }
    push_str(out, "[\n");
    let ghost start = out@;
    let mut i: usize = 0;
    while i < refs.len()
        invariant
            i <= refs@.len(),
            items == urefs_view(refs@).map_values(|r: UrlRefV| ref_json(r)),
            out@ == start + joined(items.take(i as int)),
        decreases refs.len() - i,
    {
        if i > 0 {
            push_str(out, ",\n");
        }
        push_ref(out, &refs[i]);
        proof {
            let t = items.take(i + 1);
            assert(t.drop_last() =~= items.take(i as int));
            assert(t.last() == ref_json(refs@[i as int]@));
            if i == 0 {
                assert(items.take(0) =~= Seq::<Seq<char>>::empty());
            }
            assert(out@ =~= start + joined(t));
        }
        i += 1;
    }
    push_str(out, "\n  ]");
    proof {
        assert(items.take(refs@.len() as int) =~= items);
    }
}

fn render_doc(blocks: &[Block], refs: &[UrlReference]) -> (r: String)
    ensures
        r@ == doc_json(blocks_view(blocks@), urefs_view(refs@)),
{
    let mut out = String::new();
    push_str(&mut out, "{\n  \"blocks\": ");
    push_blocks(&mut out, blocks);
    push_str(&mut out, ",\n  \"references\": ");
    push_refs(&mut out, refs);
    push_str(&mut out, "\n}");
    assert(out@ =~= doc_json(blocks_view(blocks@), urefs_view(refs@)));
    out
}

/// Serialize a structured document as pretty-printed JSON.
pub fn to_json(doc: &StructuredDoc) -> (r: String)
    ensures
        r@ == doc_json(blocks_view(doc.blocks@), urefs_view(doc.references@)),
{
    render_doc(doc.blocks.as_slice(), doc.references.as_slice())
}


/// The texts of blocks, separated by single spaces.
pub open spec fn texts_joined(blocks: Seq<BlockV>) -> Seq<char>
    decreases blocks.len(),
{
    if blocks.len() == 0 {
        Seq::<char>::empty()
    } else if blocks.len() == 1 {
        blocks[0].text
    } else {
        texts_joined(blocks.drop_last()) + seq![' '] + blocks.last().text
    }
}

/// Does `text` cite this reference?
pub open spec fn cites(text: Seq<char>) -> spec_fn(UrlRefV) -> bool {
    |r: UrlRefV| cited_set(bytes_of(text)).contains(r.index)
}

/// The references that text cites, in their original order.
pub open spec fn cited_of(refs: Seq<UrlRefV>, text: Seq<char>) -> Seq<UrlRefV> {
    refs.filter(cites(text))
}

/// The first `n` blocks, serialized with the references they cite.
pub open spec fn render_prefix(blocks: Seq<BlockV>, refs: Seq<UrlRefV>, n: int) -> (Seq<char>, Seq<UrlRefV>) {
    let b = blocks.take(n);
    let r = cited_of(refs, texts_joined(b));
    (doc_json(b, r), r)
}

/// Does the serialization of the first `n` blocks fit `max` tokens?
pub open spec fn prefix_fits(blocks: Seq<BlockV>, refs: Seq<UrlRefV>, n: int, max: int) -> bool {
    tokens(bytes_of(render_prefix(blocks, refs, n).0)) <= max
}

fn render_first(blocks: &Vec<Block>, refs: &Vec<UrlReference>, n: usize) -> (r: (String, Vec<UrlReference>))
    requires
        n <= blocks@.len(),
    ensures
        r.0@ == render_prefix(blocks_view(blocks@), urefs_view(refs@), n as int).0,
        urefs_view(r.1@) == render_prefix(blocks_view(blocks@), urefs_view(refs@), n as int).1,
{
    let ghost bv = blocks_view(blocks@);
    let mut text = String::new();
    let mut i: usize = 0;
    while i < n
        invariant
            n <= blocks@.len(),
            bv == blocks_view(blocks@),
            i <= n,
            text@ == texts_joined(bv.take(i as int)),
        decreases n - i,
    {
        if i > 0 {
            push_char(&mut text, ' ');
        }
        push_str(&mut text, blocks[i].text.as_str());
        proof {
            let t = bv.take(i + 1);
            assert(t.drop_last() =~= bv.take(i as int));
            if i == 0 {
                assert(text@ =~= t[0].text);
            }
        }
        i += 1;
    }
    let cited = cited_indices(text.as_str());
    let ghost pred = cites(text@);
    let ghost rv = urefs_view(refs@);
    let mut kept: Vec<UrlReference> = Vec::new();
    let mut j: usize = 0;
    while j < refs.len()
        invariant
            j <= refs@.len(),
            rv == urefs_view(refs@),
            cited@ == cited_set(bytes_of(text@)),
            pred == cites(text@),
            urefs_view(kept@) == rv.take(j as int).filter(pred),
        decreases refs.len() - j,
    {
        proof {
            reveal_with_fuel(Seq::filter, 1);
            assert(rv.take(j + 1).drop_last() =~= rv.take(j as int));
        }
        if cited.contains(&refs[j].index) {
            let ghost before = kept@;
            let c = refs[j].duplicate();
            kept.push(c);
            proof {
                assert(urefs_view(before.push(c)) =~= urefs_view(before).push(c@));
            }
        }
        j += 1;
    }
    proof {
        assert(rv.take(refs@.len() as int) =~= rv);
    }
    let firsts = vstd::slice::slice_subrange(blocks.as_slice(), 0, n);
    proof {
        assert(blocks_view(firsts@) =~= bv.take(n as int));
    }
    let json = render_doc(firsts, kept.as_slice());
    (json, kept)
}

/// Fit a structured document to a token budget by dropping trailing blocks
/// and re-serializing, so the output is always valid JSON.
///
/// With no budget, or when the whole document fits, that is the answer.
/// Otherwise the answer is the largest block count at which the document
/// fits (or none at all); since a longer prefix never costs less, a binary
/// search finds it.
pub fn budget_structured(doc: &StructuredDoc, max_tokens: Option<usize>) -> (r: (String, Vec<UrlReference>))
    ensures
        ({
            let bv = blocks_view(doc.blocks@);
            let rv = urefs_view(doc.references@);
            let all = bv.len() as int;
            match max_tokens {
                None => r.0@ == render_prefix(bv, rv, all).0 && urefs_view(r.1@) == render_prefix(
                    bv,
                    rv,
                    all,
                ).1,
                Some(m) => if prefix_fits(bv, rv, all, m as int) {
                    r.0@ == render_prefix(bv, rv, all).0 && urefs_view(r.1@) == render_prefix(
                        bv,
                        rv,
                        all,
                    ).1
                } else {
                    exists|k: int|
                        #![trigger render_prefix(bv, rv, k)]
                        0 <= k <= all && (k == 0 || prefix_fits(bv, rv, k, m as int)) && (forall|j: int|
                            k < j <= all ==> !#[trigger] prefix_fits(bv, rv, j, m as int)) && r.0@ == render_prefix(
                            bv,
                            rv,
                            k,
                        ).0 && urefs_view(r.1@) == render_prefix(bv, rv, k).1
                },
            }
        }),
{
    let ghost bv = blocks_view(doc.blocks@);
    let ghost rv = urefs_view(doc.references@);
    let n = doc.blocks.len();
    let max = match max_tokens {
        None => {
            return render_first(&doc.blocks, &doc.references, n);
        },
        Some(m) => m,
    };
    let full = render_first(&doc.blocks, &doc.references, n);
    if estimate_tokens(full.0.as_str()) <= max {
        return full;
    }
    let mut lo: usize = 0;
    let mut hi: usize = n;
    while lo < hi
        invariant
            n == bv.len(),
            bv == blocks_view(doc.blocks@),
            rv == urefs_view(doc.references@),
            lo <= hi <= n,
            lo == 0 || prefix_fits(bv, rv, lo as int, max as int),
            hi == n || !prefix_fits(bv, rv, hi + 1, max as int),
        decreases hi - lo,
    {
        let mid = lo + (hi - lo) / 2 + (hi - lo) % 2;
        let attempt = render_first(&doc.blocks, &doc.references, mid);
        if estimate_tokens(attempt.0.as_str()) <= max {
            lo = mid;
        } else {
            hi = mid - 1;
        }
    }
    let r = render_first(&doc.blocks, &doc.references, lo);
    proof {
        let k = lo as int;
        assert forall|j: int| k < j <= bv.len() implies !#[trigger] prefix_fits(bv, rv, j, max as int) by {
            if prefix_fits(bv, rv, j, max as int) {
                lemma_prefix_fits_shorter(bv, rv, k + 1, j, max as int);
            }
        }
        assert(0 <= k <= bv.len() && (k == 0 || prefix_fits(bv, rv, k, max as int)) && (forall|j: int|
            k < j <= bv.len() ==> !#[trigger] prefix_fits(bv, rv, j, max as int)) && r.0@ == render_prefix(bv, rv, k).0
            && urefs_view(r.1@) == render_prefix(bv, rv, k).1);
    }
    r
}

/// What a text costs the estimator, in quarter tokens.
pub open spec fn price(s: Seq<char>) -> int {
    cost_q(bytes_of(s))
}

proof fn lemma_price_concat(a: Seq<char>, b: Seq<char>)
    ensures
        price(a + b) == price(a) + price(b),
        price(a) >= 0,
        price(b) >= 0,
{
    lemma_bytes_concat(a, b);
    lemma_cost_concat(bytes_of(a), bytes_of(b));
    lemma_cost_bounds(bytes_of(a));
    lemma_cost_bounds(bytes_of(b));
}

proof fn lemma_price_empty()
    ensures
        price(Seq::<char>::empty()) == 0,
{
    let e = Seq::<char>::empty();
    assert(e + e =~= e);
    lemma_price_concat(e, e);
}

proof fn lemma_joined_push(s: Seq<Seq<char>>, z: Seq<char>)
    ensures
        joined(s.push(z)) == (if s.len() == 0 {
            z
        } else {
            joined(s) + ",\n"@ + z
        }),
{
    assert(s.push(z).drop_last() =~= s);
    assert(s.push(z).last() == z);
    if s.len() == 0 {
        assert(s.push(z)[0] == z);
    }
}

/// A list of items that costs at least as much as another once joined, and
/// is not empty when the other is not.
pub open spec fn covers(s: Seq<Seq<char>>, t: Seq<Seq<char>>) -> bool {
    price(joined(s)) <= price(joined(t)) && (s.len() > 0 ==> t.len() > 0)
}

proof fn lemma_covers_push(s: Seq<Seq<char>>, t: Seq<Seq<char>>, z: Seq<char>)
    requires
        covers(s, t),
    ensures
        covers(s.push(z), t.push(z)),
{
    lemma_joined_push(s, z);
    lemma_joined_push(t, z);
    lemma_price_concat(joined(s) + ",\n"@, z);
    lemma_price_concat(joined(s), ",\n"@);
    lemma_price_concat(joined(t) + ",\n"@, z);
    lemma_price_concat(joined(t), ",\n"@);
    if s.len() == 0 {
        lemma_price_empty();
        assert(joined(s) =~= Seq::<char>::empty());
    }
}

proof fn lemma_covers_extend(s: Seq<Seq<char>>, t: Seq<Seq<char>>, z: Seq<char>)
    requires
        covers(s, t),
    ensures
        covers(s, t.push(z)),
{
    lemma_joined_push(t, z);
    lemma_price_concat(joined(t) + ",\n"@, z);
    lemma_price_concat(joined(t), ",\n"@);
    if t.len() == 0 {
        lemma_price_empty();
        assert(joined(s) =~= Seq::<char>::empty());
    }
}

proof fn lemma_list_covers(s: Seq<Seq<char>>, t: Seq<Seq<char>>)
    requires
        covers(s, t),
    ensures
        price(json_list(s)) <= price(json_list(t)),
{
    lemma_price_concat("[\n"@ + joined(s), "\n  ]"@);
    lemma_price_concat("[\n"@, joined(s));
    lemma_price_concat("[\n"@ + joined(t), "\n  ]"@);
    lemma_price_concat("[\n"@, joined(t));
    if s.len() == 0 && t.len() > 0 {
        reveal_strlit("[]");
        reveal_strlit("[");
        reveal_strlit("]");
        reveal_strlit("[\n");
        reveal_strlit("\n");
        reveal_strlit("\n  ]");
        reveal_strlit("\n  ");
        assert("[]"@ =~= "["@ + "]"@);
        assert("[\n"@ =~= "["@ + "\n"@);
        assert("\n  ]"@ =~= "\n  "@ + "]"@);
        lemma_price_concat("["@, "]"@);
        lemma_price_concat("["@, "\n"@);
        lemma_price_concat("\n  "@, "]"@);
    }
}

proof fn lemma_filter_covers(rv: Seq<UrlRefV>, p: spec_fn(UrlRefV) -> bool, q: spec_fn(UrlRefV) -> bool)
    requires
        forall|r: UrlRefV| #[trigger] p(r) ==> q(r),
    ensures
        covers(
            rv.filter(p).map_values(|r: UrlRefV| ref_json(r)),
            rv.filter(q).map_values(|r: UrlRefV| ref_json(r)),
        ),
    decreases rv.len(),
{
    reveal_with_fuel(Seq::filter, 1);
    if rv.len() == 0 {
        assert(rv.filter(p) =~= Seq::<UrlRefV>::empty());
        assert(rv.filter(q) =~= Seq::<UrlRefV>::empty());
        assert(rv.filter(p).map_values(|r: UrlRefV| ref_json(r)) =~= rv.filter(q).map_values(
            |r: UrlRefV| ref_json(r),
        ));
    } else {
        let rest = rv.drop_last();
        let y = rv.last();
        lemma_filter_covers(rest, p, q);
        let s0 = rest.filter(p).map_values(|r: UrlRefV| ref_json(r));
        let t0 = rest.filter(q).map_values(|r: UrlRefV| ref_json(r));
        let s1 = rv.filter(p).map_values(|r: UrlRefV| ref_json(r));
        let t1 = rv.filter(q).map_values(|r: UrlRefV| ref_json(r));
        if p(y) {
            assert(s1 =~= s0.push(ref_json(y)));
            assert(t1 =~= t0.push(ref_json(y)));
            lemma_covers_push(s0, t0, ref_json(y));
        } else if q(y) {
            assert(s1 =~= s0);
            assert(t1 =~= t0.push(ref_json(y)));
            lemma_covers_extend(s0, t0, ref_json(y));
        } else {
            assert(s1 =~= s0);
            assert(t1 =~= t0);
        }
    }
}

proof fn lemma_cited_extend(a: Seq<u8>, c: Seq<u8>)
    ensures
        cited_set(a).subset_of(cited_set(a + c)),
{
    assert forall|v: usize| cited_set(a).contains(v) implies cited_set(a + c).contains(v) by {
        let (i, j) = choose|i: int, j: int|
            #![trigger marker_at(a, i, j)]
            i < a.len() && marker_at(a, i, j) && digits_value(a.subrange(i + 1, j)) == v;
        assert(marker_at(a + c, i, j)) by {
            assert forall|k: int| i < k < j implies crate::refs::is_digit(#[trigger] (a + c)[k]) by {
                assert((a + c)[k] == a[k]);
            }
        }
        assert((a + c).subrange(i + 1, j) =~= a.subrange(i + 1, j));
        assert(cites_before(a + c, v, (a + c).len() as int));
    }
}

proof fn lemma_texts_cited_grow(blocks: Seq<BlockV>, k: int)
    requires
        0 <= k < blocks.len(),
    ensures
        forall|r: UrlRefV|
            #[trigger] cites(texts_joined(blocks.take(k)))(r) ==> cites(texts_joined(blocks.take(k + 1)))(r),
{
    let b0 = blocks.take(k);
    let b1 = blocks.take(k + 1);
    assert(b1.drop_last() =~= b0);
    let t0 = texts_joined(b0);
    let t1 = texts_joined(b1);
    if k == 0 {
        assert(t0 =~= Seq::<char>::empty());
        assert(bytes_of(t0) =~= Seq::<u8>::empty()) by {
            lemma_bytes_concat(t0, t0);
            assert(t0 + t0 =~= t0);
        }
        assert forall|r: UrlRefV| #[trigger] cites(t0)(r) implies cites(t1)(r) by {
            assert(!cited_set(bytes_of(t0)).contains(r.index));
        }
    } else {
        let tail = seq![' '] + b1.last().text;
        assert(t1 =~= t0 + tail);
        lemma_bytes_concat(t0, tail);
        lemma_cited_extend(bytes_of(t0), bytes_of(tail));
    }
}

/// A longer prefix of a structured document never costs less: each block
/// added lengthens the list of blocks, and can only add to the references
/// the blocks cite.
pub proof fn lemma_prefix_price_grows(blocks: Seq<BlockV>, refs: Seq<UrlRefV>, k: int)
    requires
        0 <= k < blocks.len(),
    ensures
        price(render_prefix(blocks, refs, k).0) <= price(render_prefix(blocks, refs, k + 1).0),
{
    let b0 = blocks.take(k);
    let b1 = blocks.take(k + 1);
    assert(b1 =~= b0.push(blocks[k]));
    let t0 = texts_joined(b0);
    let t1 = texts_joined(b1);
    lemma_texts_cited_grow(blocks, k);
    lemma_filter_covers(refs, cites(t0), cites(t1));
    let r0 = cited_of(refs, t0);
    let r1 = cited_of(refs, t1);
    let bi0 = b0.map_values(|b: BlockV| block_json(b));
    let bi1 = b1.map_values(|b: BlockV| block_json(b));
    assert(bi1 =~= bi0.push(block_json(blocks[k])));
    lemma_covers_extend(bi0, bi0, block_json(blocks[k]));
    lemma_list_covers(bi0, bi1);
    let ri0 = r0.map_values(|r: UrlRefV| ref_json(r));
    let ri1 = r1.map_values(|r: UrlRefV| ref_json(r));
    lemma_list_covers(ri0, ri1);
    let h = "{\n  \"blocks\": "@;
    let m = ",\n  \"references\": "@;
    let e = "\n}"@;
    assert(render_prefix(blocks, refs, k).0 == h + json_list(bi0) + m + json_list(ri0) + e);
    assert(render_prefix(blocks, refs, k + 1).0 == h + json_list(bi1) + m + json_list(ri1) + e);
    lemma_price_concat(h + json_list(bi0) + m + json_list(ri0), e);
    lemma_price_concat(h + json_list(bi0) + m, json_list(ri0));
    lemma_price_concat(h + json_list(bi0), m);
    lemma_price_concat(h, json_list(bi0));
    lemma_price_concat(h + json_list(bi1) + m + json_list(ri1), e);
    lemma_price_concat(h + json_list(bi1) + m, json_list(ri1));
    lemma_price_concat(h + json_list(bi1), m);
    lemma_price_concat(h, json_list(bi1));
}

/// Fitting the budget is inherited by shorter prefixes: if the first `j`
/// blocks fit, so do the first `i` for any `i <= j`. The budgeted document
/// is therefore the largest prefix that fits.
pub proof fn lemma_prefix_fits_shorter(blocks: Seq<BlockV>, refs: Seq<UrlRefV>, i: int, j: int, max: int)
    requires
        0 <= i <= j <= blocks.len(),
        prefix_fits(blocks, refs, j, max),
    ensures
        prefix_fits(blocks, refs, i, max),
    decreases j - i,
{
    if i < j {
        lemma_prefix_price_grows(blocks, refs, j - 1);
        lemma_prefix_fits_shorter(blocks, refs, i, j - 1, max);
    }
}

} // verus!
