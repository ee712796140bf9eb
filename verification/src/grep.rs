//! Find where a page mentions something, without reading the page.
//!
//! Match offsets are the offsets a fetch's `offset` reads, like outline
//! offsets, so a hit is followed by fetching at it. The snippet is a locator:
//! it lets a caller judge which hit is worth reading.

use vstd::prelude::*;
use vstd::string::StringSliceAdditionalSpecFns;
use vstd::utf8::*;

use crate::compress::{ceil_boundary, floor_boundary, join_lines, lemma_ceil_boundary, lemma_floor_boundary, tokens};
use crate::json::strings_view;
use crate::outline::{SectionV, Section, sections_view};
use crate::rows::{budgeted_listing, budgeted_rows, counted_note, join_rows, lemma_listing_fits, lemma_listing_shape, listing_of};
use crate::text::{bytes_of, chars_vec, decimal, is_whitespace, is_ws, opt_chars, owned, push_char, push_str, string_of_range, usize_to_string};

verus! {


/// Characters of surrounding text carried with a hit.
pub const SNIPPET_CHARS: usize = 160;

/// Bound on the compiled pattern, so a pathological one is refused rather
/// than allocating without limit.
pub const PATTERN_SIZE_LIMIT: usize = 1048576;

/// One place the page mentions the pattern.
#[derive(Debug, Clone, PartialEq, Eq)]
pub struct Match {
    /// Byte offset of the match in the extracted text.
    pub offset: usize,
    /// Text around the match, for judging which hit is worth reading.
    pub snippet: String,
    /// The heading whose section contains the hit, when the page has one.
    pub section: Option<String>,
    /// Further occurrences close enough that this snippet already covers them.
    pub nearby: usize,
}

/// The content of a [`Match`].
pub struct MatchV {
    pub offset: usize,
    pub snippet: Seq<char>,
    pub section: Option<Seq<char>>,
    pub nearby: usize,
}

impl View for Match {
    type V = MatchV;

    open spec fn view(&self) -> MatchV {
        MatchV {
            offset: self.offset,
            snippet: self.snippet@,
            section: opt_chars(self.section),
            nearby: self.nearby,
        }
    }
}

pub open spec fn matches_view(v: Seq<Match>) -> Seq<MatchV> {
    v.map_values(|m: Match| m@)
}

/// Whether a character is uppercase in Unicode, as `char::is_uppercase`
/// reports it.
pub uninterp spec fn upper_case(c: char) -> bool;

/// Wraps `char::is_uppercase`. The contract claims only that the result
/// depends on the character.
#[verifier::external_body]
fn is_uppercase(c: char) -> (r: bool)
    ensures
        r == upper_case(c),
{
    c.is_uppercase()
}

/// The spans (byte start and end) of the successive matches the regex crate
/// finds in `text` for `pattern` built with the given case sensitivity and
/// size limit, or the message of the error it refused the pattern with.
pub uninterp spec fn regex_search(
    pattern: Seq<char>,
    case_insensitive: bool,
    size_limit: usize,
    text: Seq<char>,
) -> Result<Seq<(usize, usize)>, Seq<char>>;

/// Spans in order, none overlapping: each starts at or after the end of
/// every earlier one.
pub open spec fn successive(spans: Seq<(usize, usize)>) -> bool {
    forall|i: int, j: int| 0 <= i < j < spans.len() ==> #[trigger] spans[i].1 <= #[trigger] spans[j].0
}

/// Wraps `regex::RegexBuilder` (`case_insensitive`, `size_limit`, `build`)
/// and `Regex::find_iter`, returning each match's `start` and `end`, or the
/// build error's message. Besides depending on its arguments alone, the
/// contract claims what the regex crate documents of the matches: each
/// starts at most where it ends, both byte offsets within the haystack, and
/// they come in order without overlapping (`find_iter` yields "successive
/// non-overlapping matches"), so each starts at or after every earlier one's
/// end.
#[verifier::external_body]
fn find_matches(pattern: &str, case_insensitive: bool, size_limit: usize, text: &str) -> (r: Result<Vec<(usize, usize)>, String>)
    ensures
        match r {
            Ok(v) => regex_search(pattern@, case_insensitive, size_limit, text@) == Ok::<
                Seq<(usize, usize)>,
                Seq<char>,
            >(v@),
            Err(e) => regex_search(pattern@, case_insensitive, size_limit, text@) == Err::<
                Seq<(usize, usize)>,
                Seq<char>,
            >(e@),
        },
        r matches Ok(v) ==> forall|i: int|
            0 <= i < v@.len() ==> (#[trigger] v@[i]).0 <= v@[i].1 <= bytes_of(text@).len(),
        r matches Ok(v) ==> successive(v@),
{
    let re = regex::RegexBuilder::new(pattern).case_insensitive(case_insensitive).size_limit(
        size_limit,
    ).build().map_err(|e| e.to_string())?;
    Ok(re.find_iter(text).map(|m| (m.start(), m.end())).collect())
}

/// Smart case: a pattern with no uppercase letter matches case-insensitively.
pub open spec fn smart_case_insensitive(pattern: Seq<char>) -> bool {
    !(exists|i: int| 0 <= i < pattern.len() && upper_case(#[trigger] pattern[i]))
}

/// Is the pattern matched case-insensitively? Only when it holds no
/// uppercase letter: typing a capital is how a caller says they meant it.
pub fn case_insensitive_for(pattern: &str) -> (r: bool)
    ensures
        r == smart_case_insensitive(pattern@),
{
    let v = chars_vec(pattern);
    let mut i: usize = 0;
    while i < v.len()
        invariant
            v@ == pattern@,
            i <= v@.len(),
            forall|k: int| 0 <= k < i ==> !upper_case(#[trigger] v@[k]),
        decreases v.len() - i,
    {
        if is_uppercase(v[i]) {
            return false;
        }
        i += 1;
    }
    true
}

/// Where `pattern` matches `text`, with smart case and the pattern size
/// limit, or why the pattern was refused.
pub fn find_spans(pattern: &str, text: &str) -> (r: Result<Vec<(usize, usize)>, String>)
    ensures
        match r {
            Ok(v) => regex_search(pattern@, smart_case_insensitive(pattern@), PATTERN_SIZE_LIMIT, text@)
                == Ok::<Seq<(usize, usize)>, Seq<char>>(v@),
            Err(e) => regex_search(pattern@, smart_case_insensitive(pattern@), PATTERN_SIZE_LIMIT, text@)
                == Err::<Seq<(usize, usize)>, Seq<char>>(e@),
        },
        r matches Ok(v) ==> forall|i: int|
            0 <= i < v@.len() ==> (#[trigger] v@[i]).0 <= v@[i].1 <= bytes_of(text@).len(),
        r matches Ok(v) ==> successive(v@),
{
    let ci = case_insensitive_for(pattern);
    find_matches(pattern, ci, PATTERN_SIZE_LIMIT, text)
}

/// The heading whose section contains `offset`: the last one starting at
/// or before it.
pub open spec fn section_at(sections: Seq<SectionV>, offset: int) -> Option<Seq<char>>
    decreases sections.len(),
{
    if sections.len() == 0 {
        None
    } else if sections.last().offset <= offset {
        Some(sections.last().title)
    } else {
        section_at(sections.drop_last(), offset)
    }
}

fn section_for(sections: &[Section], offset: usize) -> (r: Option<String>)
    ensures
        opt_chars(r) == section_at(sections_view(sections@), offset as int),
{
    let ghost sv = sections_view(sections@);
    let mut i = sections.len();
    assert(sv.take(i as int) =~= sv);
    while i > 0
        invariant
            sv == sections_view(sections@),
            i <= sections@.len(),
            section_at(sv, offset as int) == section_at(sv.take(i as int), offset as int),
        decreases i,
    {
        proof {
            assert(sv.take(i as int).drop_last() =~= sv.take(i - 1));
        }
        if sections[i - 1].offset <= offset {
            return Some(sections[i - 1].title.clone());
        }
        i -= 1;
    }
    None
}

/// Whitespace runs collapsed to single spaces and trimmed away at both
/// ends, as joining `split_whitespace` with spaces does; scanning with
/// `gap` set when whitespace was seen since the last word.
pub open spec fn flat_from(s: Seq<char>, i: int, out: Seq<char>, gap: bool) -> Seq<char>
    decreases s.len() - i,
{
    if i < 0 || i >= s.len() {
        out
    } else if is_ws(s[i]) {
        flat_from(s, i + 1, out, out.len() > 0)
    } else if gap {
        flat_from(s, i + 1, out + seq![' ', s[i]], false)
    } else {
        flat_from(s, i + 1, out.push(s[i]), false)
    }
}

pub open spec fn flatten(s: Seq<char>) -> Seq<char> {
    flat_from(s, 0, Seq::<char>::empty(), false)
}

fn flatten_ws(v: &Vec<char>, from: usize, to: usize) -> (r: String)
    requires
        from <= to <= v@.len(),
    ensures
        r@ == flatten(v@.subrange(from as int, to as int)),
{
    let ghost s = v@.subrange(from as int, to as int);
    let mut out = String::new();
    let mut gap = false;
    let mut i = from;
    while i < to
        invariant
            from <= i <= to <= v@.len(),
            s == v@.subrange(from as int, to as int),
            flatten(s) == flat_from(s, i - from, out@, gap),
        decreases to - i,
    {
        let c = v[i];
        assert(s[i - from] == c);
        let ghost before = out@;
        let ghost g = gap;
        if is_whitespace(c) {
            gap = !out.as_str().is_empty();
        } else {
            if gap {
                push_char(&mut out, ' ');
            }
            push_char(&mut out, c);
            gap = false;
            proof {
                if g {
                    assert(out@ =~= before + seq![' ', s[i - from]]);
                }
            }
        }
        i += 1;
    }
    out
}

/// The first whitespace character at or after `i`, if any.
pub open spec fn first_ws_from(s: Seq<char>, i: int) -> Option<int>
    decreases s.len() - i,
{
    if i < 0 || i >= s.len() {
        None
    } else if is_ws(s[i]) {
        Some(i)
    } else {
        first_ws_from(s, i + 1)
    }
}

/// The first whitespace character, if any.
pub open spec fn first_ws(s: Seq<char>) -> Option<int> {
    first_ws_from(s, 0)
}

/// The last whitespace character before `i`, if any.
pub open spec fn last_ws_before(s: Seq<char>, i: int) -> Option<int>
    decreases i,
{
    if i <= 0 || i > s.len() {
        None
    } else if is_ws(s[i - 1]) {
        Some(i - 1)
    } else {
        last_ws_before(s, i - 1)
    }
}

/// The last whitespace character, if any.
pub open spec fn last_ws(s: Seq<char>) -> Option<int> {
    last_ws_before(s, s.len() as int)
}

/// A snippet window with everything through its first whitespace dropped
/// when `front`, and everything from its last whitespace on when `back`.
pub open spec fn trimmed(w: Seq<char>, front: bool, back: bool) -> Seq<char> {
    let w1 = if front {
        match first_ws(w) {
            Some(p) => w.skip(p + 1),
            None => w,
        }
    } else {
        w
    };
    if back {
        match last_ws(w1) {
            Some(q) => w1.take(q),
            None => w1,
        }
    } else {
        w1
    }
}

/// An ellipsis when text was left out on that side.
pub open spec fn ellipsis(cut: bool) -> Seq<char> {
    if cut {
        seq!['…']
    } else {
        Seq::<char>::empty()
    }
}

/// Where a snippet window starts: 80 bytes before the match, clamped to the
/// text and moved back to a character boundary.
pub open spec fn window_start(b: Seq<u8>, start: int) -> int {
    let len = b.len() as int;
    let lo = if start >= SNIPPET_CHARS / 2 {
        start - SNIPPET_CHARS / 2
    } else {
        0
    };
    floor_boundary(b, if lo < len { lo } else { len })
}

/// Where a snippet window ends: 80 bytes after the match, clamped to the
/// text and moved forward to a character boundary.
pub open spec fn window_end(b: Seq<u8>, end: int) -> int {
    let len = b.len() as int;
    let hi = end + SNIPPET_CHARS / 2;
    ceil_boundary(b, if hi < len { hi } else { len })
}

/// The text around a match: the window from [`window_start`] to
/// [`window_end`]; when that does not start the text, everything through its
/// first whitespace is dropped, and when it does not end the text,
/// everything from its last whitespace on, so no word is cut; whitespace is
/// then flattened to single spaces, and an ellipsis marks each side where
/// text was left out.
pub open spec fn snippet_of(text: Seq<char>, start: int, end: int) -> Seq<char> {
    let b = bytes_of(text);
    let from = window_start(b, start);
    let to = window_end(b, end);
    let w = decode_utf8(b.subrange(from, to));
    ellipsis(from > 0) + flatten(trimmed(w, from > 0, to < b.len())) + ellipsis(to < b.len())
}

fn first_whitespace(v: &Vec<char>, from: usize, to: usize) -> (r: Option<usize>)
    requires
        from <= to <= v@.len(),
    ensures
        match first_ws(v@.subrange(from as int, to as int)) {
            Some(p) => r == Some((p + from) as usize) && 0 <= p < to - from,
            None => r is None,
        },
{
    let ghost s = v@.subrange(from as int, to as int);
    let mut i = from;
    while i < to
        invariant
            from <= i <= to <= v@.len(),
            s == v@.subrange(from as int, to as int),
            first_ws(s) == first_ws_from(s, i - from),
        decreases to - i,
    {
        assert(s[i - from] == v@[i as int]);
        if is_whitespace(v[i]) {
            return Some(i);
        }
        i += 1;
    }
    None
}

fn last_whitespace(v: &Vec<char>, from: usize, to: usize) -> (r: Option<usize>)
    requires
        from <= to <= v@.len(),
    ensures
        match last_ws(v@.subrange(from as int, to as int)) {
            Some(q) => r == Some((q + from) as usize) && 0 <= q < to - from,
            None => r is None,
        },
{
    let ghost s = v@.subrange(from as int, to as int);
    let mut i = to;
    while i > from
        invariant
            from <= i <= to <= v@.len(),
            s == v@.subrange(from as int, to as int),
            last_ws(s) == last_ws_before(s, i - from),
        decreases i,
    {
        assert(s[i - 1 - from] == v@[i - 1]);
        if is_whitespace(v[i - 1]) {
            return Some(i - 1);
        }
        i -= 1;
    }
    None
}

proof fn lemma_sub_boundary(b: Seq<u8>, from: int, to: int)
    requires
        valid_utf8(b),
        0 <= from <= to <= b.len(),
        is_char_boundary(b, from),
        is_char_boundary(b, to),
    ensures
        valid_utf8(b.subrange(from, b.len() as int)),
        is_char_boundary(b.subrange(from, b.len() as int), to - from),
{
    broadcast use is_char_boundary_iff_not_is_continuation_byte, is_char_boundary_start_end_of_seq;

    let r = b.subrange(from, b.len() as int);
    valid_utf8_split(b, from);
    if to < b.len() {
        assert(r[to - from] == b[to]);
        is_char_boundary_iff_not_is_continuation_byte(b, to);
        is_char_boundary_iff_not_is_continuation_byte(r, to - from);
    } else {
        assert(to - from == r.len());
    }
}

/// The byte window of a snippet: 80 bytes either side of the match, clamped
/// to the text and widened to character boundaries.
fn window_bounds(text: &str, start: usize, end: usize) -> (r: (usize, usize))
    requires
        window_start(bytes_of(text@), start as int) <= window_end(bytes_of(text@), end as int),
    ensures
        r.0 == window_start(bytes_of(text@), start as int),
        r.1 == window_end(bytes_of(text@), end as int),
        r.0 <= r.1 <= bytes_of(text@).len(),
        is_char_boundary(bytes_of(text@), r.0 as int),
        is_char_boundary(bytes_of(text@), r.1 as int),
{
    let bytes = text.as_bytes();
    let ghost b = bytes@;
    proof {
        encode_utf8_valid_utf8(text@);
    }
    let len = bytes.len();
    let lo = if start >= SNIPPET_CHARS / 2 {
        start - SNIPPET_CHARS / 2
    } else {
        0
    };
    let mut from = if lo < len {
        lo
    } else {
        len
    };
    let ghost f0 = from as int;
    while from > 0 && !text.is_char_boundary(from)
        invariant
            from <= f0 <= len,
            len == b.len(),
            b == bytes_of(text@),
            floor_boundary(b, f0) == floor_boundary(b, from as int),
        decreases from,
    {
        from -= 1;
    }
    proof {
        lemma_floor_boundary(b, from as int);
        lemma_floor_boundary(b, f0);
    }
    let hi = if end < len && len - end > SNIPPET_CHARS / 2 {
        end + SNIPPET_CHARS / 2
    } else {
        len
    };
    let mut to = hi;
    let ghost t0 = to as int;
    while to < len && !text.is_char_boundary(to)
        invariant
            t0 <= to <= len,
            len == b.len(),
            b == bytes_of(text@),
            ceil_boundary(b, t0) == ceil_boundary(b, to as int),
        decreases len - to,
    {
        to += 1;
    }
    proof {
        lemma_ceil_boundary(b, to as int);
        lemma_ceil_boundary(b, t0);
    }
    (from, to)
}

fn drop_front(w: &Vec<char>) -> (a: usize)
    ensures
        a <= w@.len(),
        w@.subrange(a as int, w@.len() as int) == match first_ws(w@) {
            Some(p) => w@.skip(p + 1),
            None => w@,
        },
{
    let n = w.len();
    let r = first_whitespace(w, 0, n);
    proof {
        assert(w@.subrange(0, n as int) =~= w@);
    }
    match r {
        Some(p) => {
            proof {
                assert(w@.subrange(p + 1, n as int) =~= w@.skip(p + 1));
            }
            p + 1
        },
        None => 0,
    }
}

fn drop_back(w: &Vec<char>, a: usize) -> (z: usize)
    requires
        a <= w@.len(),
    ensures
        a <= z <= w@.len(),
        w@.subrange(a as int, z as int) == match last_ws(w@.subrange(a as int, w@.len() as int)) {
            Some(q) => w@.subrange(a as int, w@.len() as int).take(q),
            None => w@.subrange(a as int, w@.len() as int),
        },
{
    let n = w.len();
    let r = last_whitespace(w, a, n);
    match r {
        Some(q) => {
            proof {
                assert(w@.subrange(a as int, q as int) =~= w@.subrange(a as int, n as int).take(
                    q - a,
                ));
            }
            q
        },
        None => n,
    }
}

/// The bounds of [`trimmed`] within a window of characters.
fn trim_bounds_ws(w: &Vec<char>, front: bool, back: bool) -> (r: (usize, usize))
    ensures
        r.0 <= r.1 <= w@.len(),
        w@.subrange(r.0 as int, r.1 as int) == trimmed(w@, front, back),
{
    let n = w.len();
    let a = if front {
        drop_front(w)
    } else {
        0
    };
    proof {
        assert(w@.subrange(0, n as int) =~= w@);
    }
    let z = if back {
        drop_back(w, a)
    } else {
        n
    };
    (a, z)
}

/// A match that starts no later than it ends has a window that does too,
/// wherever the match lies.
pub proof fn lemma_window_ordered(text: Seq<char>, start: int, end: int)
    requires
        0 <= start <= end,
    ensures
        window_start(bytes_of(text), start) <= window_end(bytes_of(text), end),
{
    let b = bytes_of(text);
    encode_utf8_valid_utf8(text);
    let len = b.len() as int;
    let lo = if start >= SNIPPET_CHARS / 2 {
        start - SNIPPET_CHARS / 2
    } else {
        0
    };
    let hi = end + SNIPPET_CHARS / 2;
    let l = if lo < len { lo } else { len };
    let h = if hi < len { hi } else { len };
    lemma_floor_boundary(b, l);
    lemma_ceil_boundary(b, h);
}

/// Text around a match, widened to whole words and flattened to one line.
///
/// The window runs from 80 bytes before `start` to 80 bytes after `end`,
/// each clamped to the text, so offsets past the end are accepted; the one
/// demand is that the window does not start after it ends (which
/// [`lemma_window_ordered`] shows for any `start <= end`).
pub fn snippet_around(text: &str, start: usize, end: usize) -> (r: String)
    requires
        window_start(bytes_of(text@), start as int) <= window_end(bytes_of(text@), end as int),
    ensures
        r@ == snippet_of(text@, start as int, end as int),
{
    let ghost b = bytes_of(text@);
    proof {
        encode_utf8_valid_utf8(text@);
    }
    let len = text.as_bytes().len();
    let (from, to) = window_bounds(text, start, end);
    proof {
        lemma_sub_boundary(b, from as int, to as int);
    }
    let (_, rest) = text.split_at(from);
    let (window, _) = rest.split_at(to - from);
    proof {
        assert(window.spec_bytes() =~= b.subrange(from as int, to as int));
        encode_utf8_decode_utf8(window@);
    }
    let w = chars_vec(window);
    let (a, z) = trim_bounds_ws(&w, from > 0, to < len);
    let flat = flatten_ws(&w, a, z);
    let mut out = String::new();
    if from > 0 {
        push_char(&mut out, '…');
    }
    push_str(&mut out, flat.as_str());
    if to < len {
        push_char(&mut out, '…');
    }
    proof {
        assert(out@ =~= snippet_of(text@, start as int, end as int));
    }
    out
}

/// The hits of the spans from `i` on, given the hits so far: a span in the
/// same section as the last hit and starting within a snippet's width of it
/// is counted as nearby; any other opens a hit of its own, with its snippet
/// and section.
pub open spec fn grep_from(
    text: Seq<char>,
    spans: Seq<(usize, usize)>,
    sections: Seq<SectionV>,
    i: int,
    hits: Seq<MatchV>,
) -> Seq<MatchV>
    decreases spans.len() - i,
{
    if i < 0 || i >= spans.len() {
        hits
    } else {
        let st = spans[i].0;
        let sec = section_at(sections, st as int);
        if hits.len() > 0 && hits.last().section == sec && (if st >= hits.last().offset {
            st - hits.last().offset
        } else {
            0
        }) < SNIPPET_CHARS {
            let last = hits.last();
            grep_from(
                text,
                spans,
                sections,
                i + 1,
                hits.update(
                    hits.len() - 1,
                    MatchV {
                        offset: last.offset,
                        snippet: last.snippet,
                        section: last.section,
                        nearby: (last.nearby + 1) as usize,
                    },
                ),
            )
        } else {
            grep_from(
                text,
                spans,
                sections,
                i + 1,
                hits.push(
                    MatchV {
                        offset: st,
                        snippet: snippet_of(text, st as int, spans[i].1 as int),
                        section: sec,
                        nearby: 0,
                    },
                ),
            )
        }
    }
}

fn opt_eq(a: &Option<String>, b: &Option<String>) -> (r: bool)
    ensures
        r == (opt_chars(*a) == opt_chars(*b)),
{
    match (a, b) {
        (Some(x), Some(y)) => crate::text::str_eq(x.as_str(), y.as_str()),
        (None, None) => true,
        _ => false,
    }
}

/// Where the spans of a search fall, one hit per neighbourhood, with the
/// section each falls in. Every span is accounted for: a hit plus its
/// nearby count covers each occurrence once.
pub fn grep(body_text: &str, spans: &Vec<(usize, usize)>, sections: &[Section]) -> (r: Vec<Match>)
    requires
        forall|i: int|
            0 <= i < spans@.len() ==> (#[trigger] spans@[i]).0 <= spans@[i].1 <= bytes_of(
                body_text@,
            ).len(),
    ensures
        matches_view(r@) == grep_from(body_text@, spans@, sections_view(sections@), 0, Seq::empty()),
{
    let ghost sv = sections_view(sections@);
    let mut hits: Vec<Match> = Vec::new();
    let mut i: usize = 0;
    assert(matches_view(hits@) =~= Seq::<MatchV>::empty());
    while i < spans.len()
        invariant
            i <= spans@.len(),
            sv == sections_view(sections@),
            forall|k: int|
                0 <= k < spans@.len() ==> (#[trigger] spans@[k]).0 <= spans@[k].1 <= bytes_of(
                    body_text@,
                ).len(),
            forall|k: int| 0 <= k < hits@.len() ==> (#[trigger] hits@[k]).nearby <= i,
            grep_from(body_text@, spans@, sv, 0, Seq::empty()) == grep_from(
                body_text@,
                spans@,
                sv,
                i as int,
                matches_view(hits@),
            ),
        decreases spans.len() - i,
    {
        let (st, en) = spans[i];
        let section = section_for(sections, st);
        let n = hits.len();
        let ghost hv = matches_view(hits@);
        let same = if n > 0 {
            let last = &hits[n - 1];
            let gap = if st >= last.offset {
                st - last.offset
            } else {
                0
            };
            opt_eq(&last.section, &section) && gap < SNIPPET_CHARS
        } else {
            false
        };
        if same {
            let mut last = hits.pop().unwrap();
            last.nearby = last.nearby + 1;
            let ghost popped = hits@;
            hits.push(last);
            proof {
                assert(matches_view(hits@) =~= hv.update(
                    hv.len() - 1,
                    MatchV {
                        offset: hv.last().offset,
                        snippet: hv.last().snippet,
                        section: hv.last().section,
                        nearby: (hv.last().nearby + 1) as usize,
                    },
                ));
            }
        } else {
            proof {
                lemma_window_ordered(body_text@, st as int, en as int);
            }
            let snippet = snippet_around(body_text, st, en);
            let m = Match { offset: st, snippet, section, nearby: 0 };
            let ghost before = hits@;
            hits.push(m);
            proof {
                assert(matches_view(before.push(m)) =~= matches_view(before).push(m@));
            }
        }
        i += 1;
    }
    hits
}

/// The line under which a list of hits ends.
pub const MATCH_FOOTER: &'static str = "\nRead a match by fetching it at the offset shown.";

/// One row per hit: where to read it, its section when it has one, how many
/// occurrences it covers beyond itself, and its snippet.
pub open spec fn match_row(m: MatchV) -> Seq<char> {
    let nearby = if m.nearby == 0 {
        Seq::<char>::empty()
    } else {
        " (+"@ + decimal(m.nearby as nat) + " nearby)"@
    };
    "offset "@ + decimal(m.offset as nat) + match m.section {
        Some(sec) => " in \""@ + sec + "\""@,
        None => Seq::<char>::empty(),
    } + nearby + " — "@ + m.snippet
}

/// What follows the count of hits a budget left out.
pub const MATCH_NOTE_TAIL: &'static str = " more match(es) not shown; raise the token budget]";

/// The count of hits a budget left out.
pub open spec fn match_note(dropped: int) -> Seq<char> {
    counted_note(dropped, MATCH_NOTE_TAIL@)
}

/// Hits as text within an optional token budget: with no budget every row;
/// within one, the listing of [`budgeted_listing`], whose line counting the
/// rows left out is always said, even when no row fits.
pub open spec fn matches_text(ms: Seq<MatchV>, pattern: Seq<char>, max_tokens: Option<usize>) -> Seq<char> {
    let footer = MATCH_FOOTER@;
    let rows = ms.map_values(|m: MatchV| match_row(m));
    if ms.len() == 0 {
        "[no matches for /"@ + pattern + "/ in this page]"@
    } else {
        match max_tokens {
            None => join_lines(rows) + footer,
            Some(max) => budgeted_listing(rows, max as int, footer, MATCH_NOTE_TAIL@),
        }
    }
}

fn row_for(m: &Match) -> (r: String)
    ensures
        r@ == match_row(m@),
{
    let mut out = owned("offset ");
    let o = usize_to_string(m.offset);
    push_str(&mut out, o.as_str());
    match &m.section {
        Some(sec) => {
            push_str(&mut out, " in \"");
            push_str(&mut out, sec.as_str());
            push_str(&mut out, "\"");
        },
        None => {},
    }
    if m.nearby != 0 {
        push_str(&mut out, " (+");
        let n = usize_to_string(m.nearby);
        push_str(&mut out, n.as_str());
        push_str(&mut out, " nearby)");
    }
    push_str(&mut out, " — ");
    push_str(&mut out, m.snippet.as_str());
    assert(out@ =~= match_row(m@));
    out
}

/// Render hits as the text a caller reads. With hits and a budget that holds
/// at least the note and footer, the whole text stays inside `max_tokens`;
/// the note counting dropped hits is said even when the budget is smaller.
pub fn render(matches: &[Match], pattern: &str, max_tokens: Option<usize>) -> (r: String)
    ensures
        r@ == matches_text(matches_view(matches@), pattern@, max_tokens),
        matches@.len() > 0 && max_tokens is Some && tokens(
            bytes_of(match_note(matches@.len() as int) + MATCH_FOOTER@),
        ) <= max_tokens.unwrap() ==> tokens(bytes_of(r@)) <= max_tokens.unwrap(),
{
    let ghost mv = matches_view(matches@);
    if matches.len() == 0 {
        let mut out = owned("[no matches for /");
        push_str(&mut out, pattern);
        push_str(&mut out, "/ in this page]");
        return out;
    }
    let mut rows: Vec<String> = Vec::new();
    let mut i: usize = 0;
    while i < matches.len()
        invariant
            mv == matches_view(matches@),
            i <= matches@.len(),
            strings_view(rows@) =~= mv.take(i as int).map_values(|m: MatchV| match_row(m)),
        decreases matches.len() - i,
    {
        let row = row_for(&matches[i]);
        let ghost before = rows@;
        rows.push(row);
        proof {
            assert(strings_view(before.push(row)) =~= strings_view(before).push(row@));
            assert(mv.take(i + 1) =~= mv.take(i as int).push(mv[i as int]));
            assert(mv.take(i + 1).map_values(|m: MatchV| match_row(m)) =~= mv.take(i as int).map_values(
                |m: MatchV| match_row(m),
            ).push(match_row(mv[i as int])));
        }
        i += 1;
    }
    proof {
        assert(mv.take(matches@.len() as int) =~= mv);
    }
    let footer = MATCH_FOOTER;
    let max = match max_tokens {
        None => {
            let mut out = join_rows(&rows);
            push_str(&mut out, footer);
            return out;
        },
        Some(m) => m,
    };
    let out = budgeted_rows(&rows, max, footer, MATCH_NOTE_TAIL);
    proof {
        let rv = mv.map_values(|m: MatchV| match_row(m));
        assert(strings_view(rows@) == rv);
        if tokens(bytes_of(match_note(matches@.len() as int) + MATCH_FOOTER@)) <= max {
            lemma_listing_fits(rv, max as int, MATCH_FOOTER@, MATCH_NOTE_TAIL@);
        }
    }
    out
}

/// The occurrences a list of hits stands for: each hit and its nearby ones.
pub open spec fn occurrences(hits: Seq<MatchV>) -> int
    decreases hits.len(),
{
    if hits.len() == 0 {
        0
    } else {
        occurrences(hits.drop_last()) + hits.last().nearby + 1
    }
}

proof fn lemma_grep_from_occurrences(
    text: Seq<char>,
    spans: Seq<(usize, usize)>,
    sections: Seq<SectionV>,
    i: int,
    hits: Seq<MatchV>,
)
    requires
        0 <= i <= spans.len(),
        spans.len() < usize::MAX,
        forall|k: int| 0 <= k < hits.len() ==> (#[trigger] hits[k]).nearby <= i,
    ensures
        occurrences(grep_from(text, spans, sections, i, hits)) == occurrences(hits) + spans.len() - i,
    decreases spans.len() - i,
{
    if i < spans.len() {
        let st = spans[i].0;
        let sec = section_at(sections, st as int);
        if hits.len() > 0 && hits.last().section == sec && (if st >= hits.last().offset {
            st - hits.last().offset
        } else {
            0
        }) < SNIPPET_CHARS {
            let last = hits.last();
            let next = hits.update(
                hits.len() - 1,
                MatchV {
                    offset: last.offset,
                    snippet: last.snippet,
                    section: last.section,
                    nearby: (last.nearby + 1) as usize,
                },
            );
            assert(next.drop_last() =~= hits.drop_last());
            assert(forall|k: int| 0 <= k < next.len() ==> (#[trigger] next[k]).nearby <= i + 1) by {
                assert forall|k: int| 0 <= k < next.len() implies (#[trigger] next[k]).nearby <= i + 1 by {
                    if k < next.len() - 1 {
                        assert(next[k] == hits[k]);
                    }
                }
            }
            lemma_grep_from_occurrences(text, spans, sections, i + 1, next);
        } else {
            let next = hits.push(
                MatchV {
                    offset: st,
                    snippet: snippet_of(text, st as int, spans[i].1 as int),
                    section: sec,
                    nearby: 0,
                },
            );
            assert(next.drop_last() =~= hits);
            assert(forall|k: int| 0 <= k < next.len() ==> (#[trigger] next[k]).nearby <= i + 1) by {
                assert forall|k: int| 0 <= k < next.len() implies (#[trigger] next[k]).nearby <= i + 1 by {
                    if k < hits.len() {
                        assert(next[k] == hits[k]);
                    }
                }
            }
            lemma_grep_from_occurrences(text, spans, sections, i + 1, next);
        }
    }
}

/// A search loses no occurrence: every span the pattern matched is either a
/// hit of its own or counted as nearby on exactly one hit.
pub proof fn lemma_grep_counts_every_occurrence(
    text: Seq<char>,
    spans: Seq<(usize, usize)>,
    sections: Seq<SectionV>,
)
    requires
        spans.len() < usize::MAX,
    ensures
        occurrences(grep_from(text, spans, sections, 0, Seq::empty())) == spans.len(),
{
    lemma_grep_from_occurrences(text, spans, sections, 0, Seq::empty());
}

/// What a partial search keeps true: hits in strictly increasing order of
/// offset, each at the start of a span already read, under the section that
/// offset falls in.
pub open spec fn hits_ordered(
    spans: Seq<(usize, usize)>,
    sections: Seq<SectionV>,
    i: int,
    hits: Seq<MatchV>,
) -> bool {
    &&& forall|a: int, b: int| 0 <= a < b < hits.len() ==> #[trigger] hits[a].offset < #[trigger] hits[b].offset
    &&& forall|k: int|
        0 <= k < hits.len() ==> exists|m: int| 0 <= m < i && #[trigger] spans[m].0 == (#[trigger] hits[k]).offset
    &&& forall|k: int|
        0 <= k < hits.len() ==> (#[trigger] hits[k]).section == section_at(sections, hits[k].offset as int)
}

proof fn lemma_grep_from_ordered(
    text: Seq<char>,
    spans: Seq<(usize, usize)>,
    sections: Seq<SectionV>,
    i: int,
    hits: Seq<MatchV>,
)
    requires
        0 <= i <= spans.len(),
        forall|k: int| 0 <= k < spans.len() ==> (#[trigger] spans[k]).0 <= spans[k].1,
        successive(spans),
        hits_ordered(spans, sections, i, hits),
    ensures
        hits_ordered(spans, sections, spans.len() as int, grep_from(text, spans, sections, i, hits)),
    decreases spans.len() - i,
{
    if i >= spans.len() {
        return;
    }
    let st = spans[i].0;
    let sec = section_at(sections, st as int);
    if hits.len() > 0 {
        let last = hits.last();
        let m = choose|m: int| 0 <= m < i && #[trigger] spans[m].0 == (#[trigger] hits[hits.len() - 1]).offset;
        assert(spans[m].0 <= spans[m].1 && spans[m].1 <= spans[i].0);
        assert(last.offset <= st);
    }
    if hits.len() > 0 && hits.last().section == sec && (if st >= hits.last().offset {
        st - hits.last().offset
    } else {
        0
    }) < SNIPPET_CHARS {
        let last = hits.last();
        let next = hits.update(
            hits.len() - 1,
            MatchV { offset: last.offset, snippet: last.snippet, section: last.section, nearby: (last.nearby + 1) as usize },
        );
        assert forall|k: int| 0 <= k < next.len() implies next[k].offset == hits[k].offset && next[k].section
            == hits[k].section by {}
        assert forall|k: int|
            0 <= k < next.len() implies exists|m: int| 0 <= m < i + 1 && #[trigger] spans[m].0 == (#[trigger] next[k]).offset by {
            assert(hits[k] == hits[k]);
            let m = choose|m: int| 0 <= m < i && #[trigger] spans[m].0 == (#[trigger] hits[k]).offset;
            assert(spans[m].0 == next[k].offset);
        }
        assert(hits_ordered(spans, sections, i + 1, next));
        lemma_grep_from_ordered(text, spans, sections, i + 1, next);
    } else {
        let next = hits.push(
            MatchV { offset: st, snippet: snippet_of(text, st as int, spans[i].1 as int), section: sec, nearby: 0 },
        );
        if hits.len() > 0 {
            assert(hits.last().offset < st);
        }
        assert forall|a: int, b: int| 0 <= a < b < next.len() implies #[trigger] next[a].offset < #[trigger] next[b].offset by {
            if b == hits.len() && a < hits.len() - 1 {
                assert(hits[a].offset < hits[hits.len() - 1].offset);
            }
        }
        assert forall|k: int|
            0 <= k < next.len() implies exists|m: int| 0 <= m < i + 1 && #[trigger] spans[m].0 == (#[trigger] next[k]).offset by {
            if k < hits.len() {
                assert(hits[k] == next[k]);
                let m = choose|m: int| 0 <= m < i && #[trigger] spans[m].0 == (#[trigger] hits[k]).offset;
                assert(spans[m].0 == next[k].offset);
            } else {
                assert(spans[i].0 == next[k].offset);
            }
        }
        assert forall|k: int| 0 <= k < next.len() implies (#[trigger] next[k]).section == section_at(
            sections,
            next[k].offset as int,
        ) by {
            if k < hits.len() {
                assert(hits[k] == next[k]);
            }
        }
        lemma_grep_from_ordered(text, spans, sections, i + 1, next);
    }
}

/// Search law: over spans in order and without overlap, as the regex
/// search yields them, the hits come in strictly increasing order of
/// offset, each hit starts where one of the spans starts, and each carries
/// the section its offset falls in (the last heading at or before it).
pub proof fn lemma_grep_hits_ordered(
    text: Seq<char>,
    spans: Seq<(usize, usize)>,
    sections: Seq<SectionV>,
)
    requires
        forall|k: int| 0 <= k < spans.len() ==> (#[trigger] spans[k]).0 <= spans[k].1,
        successive(spans),
    ensures
        hits_ordered(spans, sections, spans.len() as int, grep_from(text, spans, sections, 0, Seq::empty())),
{
    lemma_grep_from_ordered(text, spans, sections, 0, Seq::empty());
}

/// The first `p` rows of the hits, and, when the listing was `cut`, the
/// note counting the rest.
pub open spec fn listed_rows(ms: Seq<MatchV>, p: int, cut: bool) -> Seq<char> {
    listing_of(ms.map_values(|m: MatchV| match_row(m)), p, cut, MATCH_NOTE_TAIL@)
}

/// Rendering law: no hits say so with the pattern; otherwise the rows of a
/// leading run of the hits, in order, then — when rows were left out — the
/// note counting them, then the footer. Without a budget every row is
/// shown.
pub proof fn lemma_render_shape(ms: Seq<MatchV>, pattern: Seq<char>, max_tokens: Option<usize>)
    ensures
        ms.len() == 0 ==> matches_text(ms, pattern, max_tokens) == "[no matches for /"@ + pattern
            + "/ in this page]"@,
        ms.len() > 0 ==> exists|p: int, cut: bool|
            0 <= p <= ms.len() && (!cut ==> p == ms.len()) && (max_tokens is None ==> !cut) && matches_text(
                ms,
                pattern,
                max_tokens,
            ) == #[trigger] listed_rows(ms, p, cut) + MATCH_FOOTER@,
{
    if ms.len() > 0 {
        let rows = ms.map_values(|m: MatchV| match_row(m));
        let n = ms.len() as int;
        assert forall|k: int| 0 <= k < rows.len() implies (#[trigger] rows[k]).len() > 0 by {
            assert(rows[k] == match_row(ms[k]));
            reveal_strlit("offset ");
            assert("offset "@.len() == 7);
        }
        match max_tokens {
            None => {
                assert(rows.take(n) =~= rows);
                assert(matches_text(ms, pattern, max_tokens) == listed_rows(ms, n, false) + MATCH_FOOTER@);
            },
            Some(max) => {
                lemma_listing_shape(rows, max as int, MATCH_FOOTER@, MATCH_NOTE_TAIL@);
                let (p, cut) = choose|p: int, cut: bool|
                    0 <= p <= rows.len() && (!cut ==> p == rows.len()) && budgeted_listing(
                        rows,
                        max as int,
                        MATCH_FOOTER@,
                        MATCH_NOTE_TAIL@,
                    ) == #[trigger] listing_of(rows, p, cut, MATCH_NOTE_TAIL@) + MATCH_FOOTER@;
                assert(listed_rows(ms, p, cut) == listing_of(rows, p, cut, MATCH_NOTE_TAIL@));
            },
        }
    }
}

} // verus!
