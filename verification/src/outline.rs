//! A map of a long page: its headings, where each section starts, and what
//! each one costs to read.
//!
//! Offsets are into the extracted text, the same space a fetch's `offset`
//! addresses, so a section is read by feeding its offset straight back.

use vstd::prelude::*;
use vstd::utf8::{encode_scalar, encode_utf8};

use crate::compress::{compress_spec, compress_text, estimate_range, tokens};
use crate::dom::{collect_text, element_text, end_of, lemma_end_of, subtree_end, NodeKind, RawNode};
use crate::extract::{content_root, content_root_of};
use crate::compress::join_lines;
use crate::text::{bytes_of, decimal, owned, push_char, push_str, str_eq, usize_to_string};

verus! {

/// One heading and the span of extracted text it opens.
#[derive(Debug, Clone, PartialEq, Eq)]
pub struct Section {
    /// Heading depth, 1-6.
    pub level: u8,
    pub title: String,
    /// Byte offset in the extracted text; reading at it reads this section.
    pub offset: usize,
    /// Size of the section: from this heading to the next, or to the end.
    pub bytes: usize,
    /// What reading this section costs.
    pub token_estimate: usize,
}

/// The content of a [`Section`].
pub struct SectionV {
    pub level: u8,
    pub title: Seq<char>,
    pub offset: int,
    pub bytes: int,
    pub token_estimate: int,
}

impl View for Section {
    type V = SectionV;

    open spec fn view(&self) -> SectionV {
        SectionV {
            level: self.level,
            title: self.title@,
            offset: self.offset as int,
            bytes: self.bytes as int,
            token_estimate: self.token_estimate as int,
        }
    }
}

pub open spec fn sections_view(v: Seq<Section>) -> Seq<SectionV> {
    v.map_values(|s: Section| s@)
}

/// The level of a heading element.
pub open spec fn heading_level(n: RawNode) -> Option<u8> {
    match n.kind {
        NodeKind::Element(name, _) => {
            let m = name@;
            if m == "h1"@ {
                Some(1u8)
            } else if m == "h2"@ {
                Some(2u8)
            } else if m == "h3"@ {
                Some(3u8)
            } else if m == "h4"@ {
                Some(4u8)
            } else if m == "h5"@ {
                Some(5u8)
            } else if m == "h6"@ {
                Some(6u8)
            } else {
                None
            }
        },
        _ => None,
    }
}

fn level_of(node: &RawNode) -> (r: Option<u8>)
    ensures
        r == heading_level(*node),
{
    match &node.kind {
        NodeKind::Element(name, _) => {
            let m = name.as_str();
            if str_eq(m, "h1") {
                Some(1)
            } else if str_eq(m, "h2") {
                Some(2)
            } else if str_eq(m, "h3") {
                Some(3)
            } else if str_eq(m, "h4") {
                Some(4)
            } else if str_eq(m, "h5") {
                Some(5)
            } else if str_eq(m, "h6") {
                Some(6)
            } else {
                None
            }
        },
        _ => None,
    }
}

/// The first position at or after `from` where `p` occurs in `h`.
pub open spec fn find_from(h: Seq<u8>, p: Seq<u8>, from: int) -> Option<int>
    decreases h.len() + 1 - from,
{
    if from < 0 || from + p.len() > h.len() {
        None
    } else if h.subrange(from, from + p.len()) == p {
        Some(from)
    } else {
        find_from(h, p, from + 1)
    }
}

proof fn lemma_find_from(h: Seq<u8>, p: Seq<u8>, from: int)
    requires
        0 <= from,
    ensures
        find_from(h, p, from) matches Some(k) ==> from <= k && k + p.len() <= h.len() && h.subrange(
            k,
            k + p.len(),
        ) == p,
    decreases h.len() + 1 - from,
{
    if from + p.len() <= h.len() && h.subrange(from, from + p.len()) != p {
        lemma_find_from(h, p, from + 1);
    }
}

fn find_bytes(h: &[u8], p: &[u8], from: usize) -> (r: Option<usize>)
    ensures
        r matches Some(k) ==> find_from(h@, p@, from as int) == Some(k as int),
        r is None ==> find_from(h@, p@, from as int) is None,
{
    let n = h.len();
    let m = p.len();
    if m > n {
        return None;
    }
    let mut i = from;
    while i <= n - m
        invariant
            n == h@.len(),
            m == p@.len(),
            m <= n,
            from <= i,
            find_from(h@, p@, from as int) == find_from(h@, p@, i as int),
        decreases n - m + 1 - i,
    {
        let mut k: usize = 0;
        let mut same = true;
        while k < m
            invariant
                i + m <= n,
                n == h@.len(),
                m == p@.len(),
                k <= m,
                same == (forall|t: int| 0 <= t < k ==> h@[i + t] == p@[t]),
            decreases m - k,
        {
            if h[i + k] != p[k] {
                same = false;
            }
            k += 1;
        }
        if same {
            assert(h@.subrange(i as int, i + m) =~= p@);
            return Some(i);
        }
        proof {
            let t = choose|t: int| 0 <= t < m && h@[i + t] != p@[t];
            assert(h@.subrange(i as int, i + m)[t] != p@[t]);
        }
        if i == n - m {
            assert(find_from(h@, p@, i + 1) is None);
            return None;
        }
        i += 1;
    }
    None
}

/// The headings found in the text, scanning positions `k..stop` with the
/// search resuming at `cursor`: each heading's compressed text, when not
/// empty, is looked for from where the last one was found, and kept with the
/// offset it was found at; one that cannot be found is skipped.
pub open spec fn heading_scan(
    s: Seq<RawNode>,
    b: Seq<u8>,
    k: int,
    stop: int,
    acc: Seq<(u8, Seq<char>, int)>,
    cursor: int,
) -> Seq<(u8, Seq<char>, int)>
    decreases stop - k,
{
    if k < 0 || k >= stop || k >= s.len() {
        acc
    } else {
        match heading_level(s[k]) {
            Some(l) => {
                let t = compress_spec(element_text(s, k));
                if t.len() == 0 {
                    heading_scan(s, b, k + 1, stop, acc, cursor)
                } else {
                    match find_from(b, bytes_of(t), cursor) {
                        Some(p) => heading_scan(
                            s,
                            b,
                            k + 1,
                            stop,
                            acc.push((l, t, p)),
                            p + bytes_of(t).len(),
                        ),
                        None => heading_scan(s, b, k + 1, stop, acc, cursor),
                    }
                }
            },
            None => heading_scan(s, b, k + 1, stop, acc, cursor),
        }
    }
}

/// Where the section starting at entry `i` ends: at the next heading, or at
/// the end of the text.
pub open spec fn section_end(found: Seq<(u8, Seq<char>, int)>, i: int, total: int) -> int {
    if i + 1 < found.len() {
        found[i + 1].2
    } else {
        total
    }
}

/// The sections the headings found open, each running to the next heading
/// or to the end of the text, with what reading it costs.
pub open spec fn sections_of(found: Seq<(u8, Seq<char>, int)>, b: Seq<u8>) -> Seq<SectionV> {
    Seq::new(
        found.len(),
        |i: int|
            {
                let start = found[i].2;
                let end = section_end(found, i, b.len() as int);
                SectionV {
                    level: found[i].0,
                    title: found[i].1,
                    offset: start,
                    bytes: if end >= start {
                        end - start
                    } else {
                        0
                    },
                    token_estimate: tokens(b.subrange(start, end)),
                }
            },
    )
}

proof fn lemma_bytes_nonempty(t: Seq<char>)
    requires
        t.len() > 0,
    ensures
        bytes_of(t).len() > 0,
{
    assert(bytes_of(t) == encode_scalar(t[0] as u32) + encode_utf8(t.drop_first()));
}

/// A scan keeps its entries in the text, in order, each at or after the
/// cursor it started from.
proof fn lemma_heading_scan_ok(
    s: Seq<RawNode>,
    b: Seq<u8>,
    k: int,
    stop: int,
    acc: Seq<(u8, Seq<char>, int)>,
    cursor: int,
)
    requires
        scan_ok(acc, b, cursor),
    ensures
        exists|c: int| #[trigger] scan_ok(heading_scan(s, b, k, stop, acc, cursor), b, c),
    decreases stop - k,
{
    let r = heading_scan(s, b, k, stop, acc, cursor);
    if k < 0 || k >= stop || k >= s.len() {
        assert(scan_ok(r, b, cursor));
    } else {
        let mut acc2 = acc;
        let mut c2 = cursor;
        if let Some(l) = heading_level(s[k]) {
            let t = compress_spec(element_text(s, k));
            if t.len() > 0 {
                lemma_find_from(b, bytes_of(t), cursor);
                if let Some(p) = find_from(b, bytes_of(t), cursor) {
                    lemma_bytes_nonempty(t);
                    acc2 = acc.push((l, t, p));
                    c2 = p + bytes_of(t).len();
                    assert forall|i: int| 0 <= i < acc2.len() - 1 implies acc2[i].2 + bytes_of(acc2[i].1).len()
                        <= acc2[i + 1].2 by {
                        if i + 1 < acc.len() {
                            assert(acc2[i] == acc[i] && acc2[i + 1] == acc[i + 1]);
                        } else {
                            assert(acc2[i] == acc.last());
                        }
                    }
                    assert forall|i: int| 0 <= i < acc2.len() implies 0 <= (#[trigger] acc2[i]).2 && acc2[i].2
                        + bytes_of(acc2[i].1).len() <= b.len() && b.subrange(
                        acc2[i].2,
                        acc2[i].2 + bytes_of(acc2[i].1).len(),
                    ) == bytes_of(acc2[i].1) && bytes_of(acc2[i].1).len() > 0 by {
                        if i < acc.len() {
                            assert(acc2[i] == acc[i]);
                        }
                    }
                }
            }
        }
        assert(scan_ok(acc2, b, c2));
        assert(r == heading_scan(s, b, k + 1, stop, acc2, c2));
        lemma_heading_scan_ok(s, b, k + 1, stop, acc2, c2);
        let c = choose|c: int| #[trigger] scan_ok(heading_scan(s, b, k + 1, stop, acc2, c2), b, c);
        assert(scan_ok(r, b, c));
    }
}

/// Outline law: sections tile the text from the first heading on — each
/// runs from its offset to the next one's, the last to the end of the text
/// — and each costs exactly the tokens of the bytes it covers.
pub proof fn lemma_outline_sections_cost_their_span(s: Seq<RawNode>, body: Seq<char>)
    ensures
        forall|i: int|
            0 <= i < outline_of(s, body).len() ==> {
                let sec = #[trigger] outline_of(s, body)[i];
                &&& 0 <= sec.offset
                &&& sec.offset + sec.bytes == (if i + 1 < outline_of(s, body).len() {
                    outline_of(s, body)[i + 1].offset
                } else {
                    bytes_of(body).len() as int
                })
                &&& sec.token_estimate == tokens(bytes_of(body).subrange(sec.offset, sec.offset + sec.bytes))
            },
{
    if let Some(r) = content_root_of(s) {
        let b = bytes_of(body);
        assert(scan_ok(Seq::empty(), b, 0));
        lemma_heading_scan_ok(s, b, r + 1, end_of(s, r), Seq::empty(), 0);
        let found = heading_scan(s, b, r + 1, end_of(s, r), Seq::empty(), 0);
        let c = choose|c: int| #[trigger] scan_ok(found, b, c);
        let sv = outline_of(s, body);
        assert forall|i: int| 0 <= i < sv.len() implies {
            let sec = #[trigger] sv[i];
            &&& 0 <= sec.offset
            &&& sec.offset + sec.bytes == (if i + 1 < sv.len() {
                sv[i + 1].offset
            } else {
                b.len() as int
            })
            &&& sec.token_estimate == tokens(b.subrange(sec.offset, sec.offset + sec.bytes))
        } by {
            assert(0 <= found[i].2);
            if i + 1 < found.len() {
                assert(found[i].2 + bytes_of(found[i].1).len() <= found[i + 1].2);
            } else {
                assert(found[i] == found.last());
            }
        }
    }
}

/// The outline of a page against its extracted text: the headings under its
/// content root, in document order, located in the text.
pub open spec fn outline_of(s: Seq<RawNode>, body: Seq<char>) -> Seq<SectionV> {
    match content_root_of(s) {
        Some(r) => sections_of(
            heading_scan(s, bytes_of(body), r + 1, end_of(s, r), Seq::empty(), 0),
            bytes_of(body),
        ),
        None => Seq::empty(),
    }
}

/// The entries of a scan are in the text at strictly increasing offsets,
/// each holding its title's bytes, at or after the cursor it started from.
pub open spec fn scan_ok(acc: Seq<(u8, Seq<char>, int)>, b: Seq<u8>, cursor: int) -> bool {
    &&& forall|i: int|
        0 <= i < acc.len() ==> 0 <= (#[trigger] acc[i]).2 && acc[i].2 + bytes_of(acc[i].1).len()
            <= b.len() && b.subrange(acc[i].2, acc[i].2 + bytes_of(acc[i].1).len()) == bytes_of(
            acc[i].1,
        ) && bytes_of(acc[i].1).len() > 0
    &&& forall|i: int| 0 <= i < acc.len() - 1 ==> acc[i].2 + bytes_of(acc[i].1).len() <= acc[i + 1].2
    &&& acc.len() > 0 ==> acc.last().2 + bytes_of(acc.last().1).len() <= cursor
    &&& 0 <= cursor <= b.len()
}

/// Build the outline of a parsed document against its extracted text.
///
/// Headings are located in the finished text rather than recorded during
/// conversion, so an outline offset and a paging offset are the same number.
/// Each section starts exactly on its heading's text, sections come in
/// increasing order, and the last one runs to the end of the text.
pub fn outline(nodes: &Vec<RawNode>, body_text: &str) -> (r: Vec<Section>)
    ensures
        sections_view(r@) == outline_of(nodes@, body_text@),
        forall|i: int|
            0 <= i < r@.len() ==> {
                let o = (#[trigger] r@[i]).offset as int;
                let tb = bytes_of(r@[i].title@);
                o + tb.len() <= bytes_of(body_text@).len() && bytes_of(body_text@).subrange(
                    o,
                    o + tb.len(),
                ) == tb
            },
        forall|i: int| 0 <= i < r@.len() - 1 ==> #[trigger] r@[i].offset < r@[i + 1].offset,
        forall|i: int|
            0 <= i < r@.len() ==> (#[trigger] r@[i]).offset + r@[i].bytes == (if i + 1 < r@.len() {
                r@[i + 1].offset as int
            } else {
                bytes_of(body_text@).len() as int
            }),
        forall|i: int|
            0 <= i < r@.len() ==> (#[trigger] r@[i]).token_estimate == tokens(
                bytes_of(body_text@).subrange(r@[i].offset as int, r@[i].offset + r@[i].bytes),
            ),
{
    let bytes = body_text.as_bytes();
    let blen = bytes.len();
    let ghost b = bytes@;
    let root = match content_root(nodes) {
        Some(k) => k,
        None => {
            let v: Vec<Section> = Vec::new();
            assert(sections_view(v@) =~= Seq::<SectionV>::empty());
            return v;
        },
    };
    proof {
        lemma_end_of(nodes@, root as int);
    }
    let e = subtree_end(nodes, root);
    let mut found_levels: Vec<u8> = Vec::new();
    let mut found_titles: Vec<String> = Vec::new();
    let mut found_offsets: Vec<usize> = Vec::new();
    let ghost mut acc: Seq<(u8, Seq<char>, int)> = Seq::empty();
    let mut cursor: usize = 0;
    let mut k = root + 1;
    while k < e
        invariant
            b == bytes@,
            b == bytes_of(body_text@),
            blen == b.len(),
            root < k <= e <= nodes@.len(),
            found_levels@.len() == acc.len(),
            found_titles@.len() == acc.len(),
            found_offsets@.len() == acc.len(),
            forall|i: int|
                0 <= i < acc.len() ==> #[trigger] acc[i] == (
                    found_levels@[i],
                    found_titles@[i]@,
                    found_offsets@[i] as int,
                ),
            scan_ok(acc, b, cursor as int),
            heading_scan(nodes@, b, root + 1, e as int, Seq::empty(), 0) == heading_scan(
                nodes@,
                b,
                k as int,
                e as int,
                acc,
                cursor as int,
            ),
        decreases e - k,
    {
        if let Some(level) = level_of(&nodes[k]) {
            let ke = subtree_end(nodes, k);
            let raw = collect_text(nodes, k + 1, ke);
            let title = compress_text(raw.as_str());
            if !title.as_str().is_empty() {
                let tb = title.as_str().as_bytes();
                proof {
                    lemma_find_from(b, tb@, cursor as int);
                }
                match find_bytes(bytes, tb, cursor) {
                    Some(at) => {
                        let ghost old_acc = acc;
                        proof {
                            acc = acc.push((level, title@, at as int));
                            assert forall|i: int| 0 <= i < acc.len() - 1 implies acc[i].2 + bytes_of(
                                acc[i].1,
                            ).len() <= acc[i + 1].2 by {
                                if i + 1 < old_acc.len() {
                                    assert(acc[i] == old_acc[i] && acc[i + 1] == old_acc[i + 1]);
                                }
                            }
                        }
                        let tlen = tb.len();
                        found_levels.push(level);
                        found_titles.push(title);
                        found_offsets.push(at);
                        cursor = at + tlen;
                    },
                    None => {},
                }
            }
        }
        k += 1;
    }
    let n = found_offsets.len();
    let total = bytes.len();
    let mut out: Vec<Section> = Vec::new();
    let ghost sv = sections_of(acc, b);
    let mut i: usize = 0;
    while i < n
        invariant
            b == bytes@,
            total == b.len(),
            n == acc.len(),
            found_levels@.len() == acc.len(),
            found_titles@.len() == acc.len(),
            found_offsets@.len() == acc.len(),
            forall|j: int|
                0 <= j < acc.len() ==> #[trigger] acc[j] == (
                    found_levels@[j],
                    found_titles@[j]@,
                    found_offsets@[j] as int,
                ),
            scan_ok(acc, b, cursor as int),
            sv == sections_of(acc, b),
            i <= n,
            sections_view(out@) =~= sv.take(i as int),
            forall|j: int| 0 <= j < i ==> (#[trigger] out@[j]).title@ == acc[j].1,
        decreases n - i,
    {
        let start = found_offsets[i];
        let end = if i + 1 < n {
            found_offsets[i + 1]
        } else {
            total
        };
        proof {
            assert(acc[i as int].2 == start);
            if i + 1 < n {
                assert(acc[i + 1].2 == end);
            }
        }
        let tokens_here = estimate_range(bytes, start, end);
        let sec = Section {
            level: found_levels[i],
            title: found_titles[i].clone(),
            offset: start,
            bytes: end - start,
            token_estimate: tokens_here,
        };
        let ghost before = out@;
        out.push(sec);
        proof {
            assert(sections_view(before.push(sec)) =~= sections_view(before).push(sec@));
            assert(sec@ == sv[i as int]);
        }
        i += 1;
    }
    proof {
        assert(sv.take(n as int) =~= sv);
        assert(sections_view(out@) == outline_of(nodes@, body_text@));
        assert forall|j: int| 0 <= j < out@.len() - 1 implies #[trigger] out@[j].offset < out@[j
            + 1].offset by {
            assert(sections_view(out@)[j] == sv[j]);
            assert(sections_view(out@)[j + 1] == sv[j + 1]);
        }
        assert forall|j: int| 0 <= j < out@.len() implies {
            let o = (#[trigger] out@[j]).offset as int;
            let tb = bytes_of(out@[j].title@);
            o + tb.len() <= b.len() && b.subrange(o, o + tb.len()) == tb
        } by {
            assert(sections_view(out@)[j] == sv[j]);
        }
        assert forall|j: int| 0 <= j < out@.len() implies (#[trigger] out@[j]).offset
            + out@[j].bytes == (if j + 1 < out@.len() {
            out@[j + 1].offset as int
        } else {
            b.len() as int
        }) by {
            assert(sections_view(out@)[j] == sv[j]);
            if j + 1 < out@.len() {
                assert(sections_view(out@)[j + 1] == sv[j + 1]);
            }
        }
        lemma_outline_sections_cost_their_span(nodes@, body_text@);
        assert forall|j: int| 0 <= j < out@.len() implies (#[trigger] out@[j]).token_estimate == tokens(
            b.subrange(out@[j].offset as int, out@[j].offset + out@[j].bytes),
        ) by {
            assert(sections_view(out@)[j] == outline_of(nodes@, body_text@)[j]);
        }
    }
    out
}


/// The line under which an outline ends.
pub const OUTLINE_FOOTER: &'static str = "\nRead a section by fetching it at the offset shown.";

/// Two spaces per heading level below the first.
pub open spec fn indent(level: u8) -> Seq<char> {
    Seq::new(if level >= 1 { (2 * (level - 1)) as nat } else { 0 }, |i: int| ' ')
}

/// One row of an outline: indented title, offset, and estimated cost.
pub open spec fn outline_row(s: SectionV) -> Seq<char> {
    indent(s.level) + s.title + " — offset "@ + decimal(s.offset as nat) + ", ~"@ + decimal(
        s.token_estimate as nat,
    ) + " tokens"@
}

/// What follows the count of headings a budget left out.
pub const HEADING_NOTE_TAIL: &'static str = " more heading(s) not shown; raise the token budget]";

/// The count of rows a budget left out.
pub open spec fn heading_note(dropped: int) -> Seq<char> {
    crate::rows::counted_note(dropped, HEADING_NOTE_TAIL@)
}

/// An outline as text within an optional token budget: with no budget every
/// row; within one, the listing of [`crate::rows::budgeted_listing`], whose
/// line counting the rows left out is always said, even when no row fits.
pub open spec fn outline_text(sections: Seq<SectionV>, max_tokens: Option<usize>) -> Seq<char> {
    let footer = OUTLINE_FOOTER@;
    let rows = sections.map_values(|s: SectionV| outline_row(s));
    if sections.len() == 0 {
        "[no headings: this document has no outline to show]"@
    } else {
        match max_tokens {
            None => join_lines(rows) + footer,
            Some(max) => crate::rows::budgeted_listing(rows, max as int, footer, HEADING_NOTE_TAIL@),
        }
    }
}

fn row_of(s: &Section) -> (r: String)
    ensures
        r@ == outline_row(s@),
{
    let mut out = String::new();
    let depth: u8 = if s.level >= 1 {
        s.level - 1
    } else {
        0
    };
    let mut i: u8 = 0;
    while i < depth
        invariant
            i <= depth,
            out@ =~= Seq::new(2 * i as nat, |k: int| ' '),
        decreases depth - i,
    {
        push_char(&mut out, ' ');
        push_char(&mut out, ' ');
        i += 1;
    }
    assert(out@ =~= indent(s.level));
    push_str(&mut out, s.title.as_str());
    push_str(&mut out, " — offset ");
    let o = usize_to_string(s.offset);
    push_str(&mut out, o.as_str());
    push_str(&mut out, ", ~");
    let t = usize_to_string(s.token_estimate);
    push_str(&mut out, t.as_str());
    push_str(&mut out, " tokens");
    assert(out@ =~= outline_row(s@));
    out
}

/// Render an outline as the text a caller reads. With headings and a budget
/// that holds at least the note and footer, the whole text stays inside
/// `max_tokens`; the note counting dropped headings is said even when the
/// budget is smaller.
pub fn render(sections: &[Section], max_tokens: Option<usize>) -> (r: String)
    ensures
        r@ == outline_text(sections_view(sections@), max_tokens),
        sections@.len() > 0 && max_tokens is Some && tokens(
            bytes_of(heading_note(sections@.len() as int) + OUTLINE_FOOTER@),
        ) <= max_tokens.unwrap() ==> tokens(bytes_of(r@)) <= max_tokens.unwrap(),
{
    let ghost sv = sections_view(sections@);
    if sections.len() == 0 {
        return owned("[no headings: this document has no outline to show]");
    }
    let mut rows: Vec<String> = Vec::new();
    let mut i: usize = 0;
    while i < sections.len()
        invariant
            sv == sections_view(sections@),
            i <= sections@.len(),
            crate::json::strings_view(rows@) =~= sv.take(i as int).map_values(
                |s: SectionV| outline_row(s),
            ),
        decreases sections.len() - i,
    {
        let row = row_of(&sections[i]);
        let ghost before = rows@;
        rows.push(row);
        proof {
            assert(crate::json::strings_view(before.push(row)) =~= crate::json::strings_view(before).push(row@));
            assert(sv.take(i + 1) =~= sv.take(i as int).push(sv[i as int]));
            assert(sv.take(i + 1).map_values(|s: SectionV| outline_row(s)) =~= sv.take(i as int).map_values(
                |s: SectionV| outline_row(s),
            ).push(outline_row(sv[i as int])));
        }
        i += 1;
    }
    proof {
        assert(sv.take(sections@.len() as int) =~= sv);
    }
    let footer = OUTLINE_FOOTER;
    let max = match max_tokens {
        None => {
            let mut out = crate::rows::join_rows(&rows);
            push_str(&mut out, footer);
            return out;
        },
        Some(m) => m,
    };
    let out = crate::rows::budgeted_rows(&rows, max, footer, HEADING_NOTE_TAIL);
    proof {
        let rv = sv.map_values(|s: SectionV| outline_row(s));
        assert(crate::json::strings_view(rows@) == rv);
        if tokens(bytes_of(heading_note(sections@.len() as int) + OUTLINE_FOOTER@)) <= max {
            crate::rows::lemma_listing_fits(rv, max as int, OUTLINE_FOOTER@, HEADING_NOTE_TAIL@);
        }
    }
    out
}

} // verus!
