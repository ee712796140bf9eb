//! From a fetched body to a [`FetchResult`]: what kind of body it is, how it
//! is extracted, how much of it one result covers, and whether extraction
//! actually produced content.

use vstd::prelude::*;
use vstd::string::StringSliceAdditionalSpecFns;
use vstd::utf8::*;

use crate::charset::find_char;
use crate::compress::{compress_spec, compress_text, consumed, estimate_tokens, floor_boundary, tokens, truncate_to_tokens_at, truncated, window_from};
use crate::json::{json_field, json_field_text, json_items, json_items_text, json_pretty, json_pretty_text};
use crate::limits::{lower_byte, MAX_NESTING_DEPTH};
use crate::text::{bytes_of, chars_vec, lower_seq, opt_chars, opt_str_chars, owned, push_char, push_str, str_eq, to_ascii_lowercase, trim, trim_str, usize_to_string, decimal, chars_eq_str};
use crate::types::{urefs_view, ContentStatus, ContentType, FetchOptions, FetchResult, Metadata, UrlRefV, UrlReference};
use crate::convert::converted_of;
use crate::convert::structured::{prefix_fits, render_prefix, structured_walk};
use crate::dom::RawNode;
use crate::extract::{lang_of, meta_either, meta_sel, meta_value, title_of, undecodable_of};
use crate::grep::{grep_from, matches_text, matches_view, regex_search, smart_case_insensitive, Match, MatchV, PATTERN_SIZE_LIMIT};
use crate::outline::{outline_of, outline_text, sections_view, Section, SectionV};
use crate::refs::{fit_consumed, fit_spec, fit_to_budget_measured, pairs, RefV};
use crate::convert::{convert_parsed, Converted};
use crate::convert::structured::{budget_structured, structured};
use crate::dom::{parse_html, parsed_nodes};
use crate::extract::{extract_metadata, extract_title, undecodable_charset};
use crate::grep::{find_spans, grep, render as grep_render};
use crate::outline::{outline, render as outline_render};
use crate::fetch::FetchedPage;

verus! {

/// What kind of body a fetch returned.
pub enum Media {
    Html,
    Json,
    Text,
    /// Anything not rendered, with its content type.
    Other(String),
}

/// The content of a [`Media`].
pub enum MediaV {
    Html,
    Json,
    Text,
    Other(Seq<char>),
}

impl Media {
    pub open spec fn view_of(self) -> MediaV {
        match self {
            Media::Html => MediaV::Html,
            Media::Json => MediaV::Json,
            Media::Text => MediaV::Text,
            Media::Other(s) => MediaV::Other(s@),
        }
    }

    /// The label a result reports: `html`, `json`, `text`, or the content
    /// type of anything not rendered.
    pub fn label(&self) -> (r: String)
        ensures
            r@ == media_label(self.view_of()),
    {
        match self {
            Media::Html => owned("html"),
            Media::Json => owned("json"),
            Media::Text => owned("text"),
            Media::Other(s) => s.clone(),
        }
    }
}

pub open spec fn media_label(m: MediaV) -> Seq<char> {
    match m {
        MediaV::Html => "html"@,
        MediaV::Json => "json"@,
        MediaV::Text => "text"@,
        MediaV::Other(s) => s,
    }
}

/// The media type of a `Content-Type` header: before any parameters,
/// trimmed, lowercase.
pub open spec fn mime_of(h: Seq<char>) -> Seq<char> {
    lower_seq(trim(h.take(find_char(h, ';') as int)))
}

pub open spec fn starts(s: Seq<char>, p: Seq<char>) -> bool {
    p.len() <= s.len() && s.take(p.len() as int) == p
}

pub open spec fn ends(s: Seq<char>, p: Seq<char>) -> bool {
    p.len() <= s.len() && s.skip(s.len() - p.len()) == p
}

/// A body with no declared type, by its first non-blank character: markup
/// is HTML, an object or array is JSON, anything else is text.
pub open spec fn sniffed(body: Seq<char>) -> MediaV {
    let t = trim(body);
    if t.len() > 0 && t[0] == '<' {
        MediaV::Html
    } else if t.len() > 0 && (t[0] == '{' || t[0] == '[') {
        MediaV::Json
    } else {
        MediaV::Text
    }
}

/// What kind of body this is: by its declared type when there is one (HTML
/// and XHTML; JSON and `+json` types; any other `text/` type as text; the
/// rest not rendered), else sniffed.
pub open spec fn media_of(header: Option<Seq<char>>, body: Seq<char>) -> MediaV {
    let m = match header {
        Some(h) => mime_of(h),
        None => Seq::<char>::empty(),
    };
    if m.len() == 0 {
        sniffed(body)
    } else if m == "text/html"@ || m == "application/xhtml+xml"@ {
        MediaV::Html
    } else if m == "application/json"@ || ends(m, "+json"@) {
        MediaV::Json
    } else if starts(m, "text/"@) {
        MediaV::Text
    } else {
        MediaV::Other(m)
    }
}

/// Media law: what follows the first `;` of a `Content-Type` header (its
/// parameters, a charset say) never changes how the body is treated.
pub proof fn lemma_media_ignores_parameters(mime: Seq<char>, params: Seq<char>, body: Seq<char>)
    requires
        forall|i: int| 0 <= i < mime.len() ==> #[trigger] mime[i] != ';',
    ensures
        media_of(Some(mime + seq![';'] + params), body) == media_of(Some(mime), body),
{
    let h = mime + seq![';'] + params;
    assert forall|i: int| 0 <= i < mime.len() implies #[trigger] h[i] != ';' by {
        assert(h[i] == mime[i]);
    }
    crate::charset::lemma_find_char_at(h, ';', mime.len() as int);
    crate::charset::lemma_find_char_at(mime, ';', mime.len() as int);
    assert(h.take(mime.len() as int) =~= mime);
    assert(mime.take(mime.len() as int) =~= mime);
}

fn char_prefix(v: &Vec<char>, p: &str) -> (r: bool)
    ensures
        r == starts(v@, p@),
{
    let pv = chars_vec(p);
    crate::text::starts_with(v, &pv)
}

fn char_suffix(v: &Vec<char>, p: &str) -> (r: bool)
    ensures
        r == ends(v@, p@),
{
    let pv = chars_vec(p);
    if pv.len() > v.len() {
        return false;
    }
    let n = v.len();
    let off = n - pv.len();
    let mut i: usize = 0;
    while i < pv.len()
        invariant
            n == v@.len(),
            pv@ == p@,
            off + pv@.len() == v@.len(),
            i <= pv@.len(),
            forall|k: int| 0 <= k < i ==> v@[off + k] == pv@[k],
        decreases pv.len() - i,
    {
        if v[off + i] != pv[i] {
            assert(v@.skip(off as int)[i as int] != pv@[i as int]);
            return false;
        }
        i += 1;
    }
    assert(v@.skip(off as int) =~= pv@);
    true
}

/// Classify a body by its declared content type, or by sniffing it.
pub fn classify_media(header: Option<&str>, body: &str) -> (r: Media)
    ensures
        r.view_of() == media_of(opt_str_chars(header), body@),
{
    let m: Vec<char> = match header {
        Some(h) => {
            let v = chars_vec(h);
            let mut end: usize = 0;
            while end < v.len() && v[end] != ';'
                invariant
                    end <= v@.len(),
                    forall|k: int| 0 <= k < end ==> #[trigger] v@[k] != ';',
                decreases v.len() - end,
            {
                end += 1;
            }
            proof {
                crate::charset::lemma_find_char_at(v@, ';', end as int);
            }
            let head = crate::text::string_of_range(&v, 0, end);
            let t = trim_str(head.as_str());
            to_ascii_lowercase(&chars_vec(t.as_str()))
        },
        None => Vec::new(),
    };
    if m.len() == 0 {
        let t = trim_str(body);
        let tv = chars_vec(t.as_str());
        if tv.len() > 0 && tv[0] == '<' {
            return Media::Html;
        } else if tv.len() > 0 && (tv[0] == '{' || tv[0] == '[') {
            return Media::Json;
        } else {
            return Media::Text;
        }
    }
    if crate::text::chars_eq_str(&m, "text/html") || crate::text::chars_eq_str(&m, "application/xhtml+xml") {
        Media::Html
    } else if crate::text::chars_eq_str(&m, "application/json") || char_suffix(&m, "+json") {
        Media::Json
    } else if char_prefix(&m, "text/") {
        Media::Text
    } else {
        Media::Other(crate::text::string_of(&m))
    }
}

/// How much of the extracted body one result covers.
pub struct Window {
    /// Estimated tokens of the whole extracted body.
    pub total_token_estimate: usize,
    /// Size of the whole extracted body in bytes, the space offsets index into.
    pub total_bytes: usize,
    /// Byte offset the returned content starts at.
    pub offset: usize,
    /// Byte offset to resume from, or `None` when the body ended here.
    pub next_offset: Option<usize>,
}

/// A window covering all of `text`.
pub open spec fn whole_window(text: Seq<char>) -> Window {
    Window {
        total_token_estimate: tokens(bytes_of(text)) as usize,
        total_bytes: bytes_of(text).len() as usize,
        offset: 0,
        next_offset: None,
    }
}

/// The window a budgeted pass produced over `full`, having started at
/// `offset` and consumed `used` bytes from there: clamped to the text, with
/// a resume point only when there is more to read.
pub open spec fn measured_window(full: Seq<char>, offset: int, used: int) -> Window {
    let len = bytes_of(full).len() as int;
    let start = if offset < len {
        offset
    } else {
        len
    };
    let end = if start + used < len {
        start + used
    } else {
        len
    };
    Window {
        total_token_estimate: tokens(bytes_of(full)) as usize,
        total_bytes: len as usize,
        offset: start as usize,
        next_offset: if end < len {
            Some(end as usize)
        } else {
            None
        },
    }
}

impl Window {
    /// A window covering an entire document.
    pub fn whole(text: &str) -> (r: Self)
        ensures
            r == whole_window(text@),
    {
        Window {
            total_token_estimate: estimate_tokens(text),
            total_bytes: text.as_bytes().len(),
            offset: 0,
            next_offset: None,
        }
    }

    /// The window a budgeted pass produced over `full`.
    pub fn measured(full: &str, offset: usize, used: usize) -> (r: Self)
        ensures
            r == measured_window(full@, offset as int, used as int),
    {
        let len = full.as_bytes().len();
        let start = if offset < len {
            offset
        } else {
            len
        };
        let end = if used < len - start {
            start + used
        } else {
            len
        };
        Window {
            total_token_estimate: estimate_tokens(full),
            total_bytes: len,
            offset: start,
            next_offset: if end < len {
                Some(end)
            } else {
                None
            },
        }
    }
}

/// Paging law: a window starts at the offset asked for (clamped to the
/// text) and, when there is more to read, resumes exactly where the bytes it
/// consumed from that offset end — past its own start whenever it consumed
/// anything — and otherwise has consumed the rest of the text.
pub proof fn lemma_measured_window_pages(full: Seq<char>, offset: int, used: int)
    requires
        0 <= offset,
        0 <= used,
        bytes_of(full).len() <= usize::MAX,
    ensures
        ({
            let len = bytes_of(full).len() as int;
            let w = measured_window(full, offset, used);
            &&& w.total_bytes == len
            &&& w.offset == (if offset < len { offset } else { len })
            &&& w.next_offset matches Some(n) ==> n == w.offset + used && n < len
            &&& w.next_offset is None ==> w.offset + used >= len
            &&& used > 0 ==> (w.next_offset matches Some(n) ==> n > w.offset)
        }),
{
}

/// The bytes of a window are the text's bytes from the character boundary at
/// or before the offset.
proof fn lemma_window_text_bytes(text: Seq<char>, offset: int)
    requires
        0 <= offset,
    ensures
        ({
            let b = bytes_of(text);
            let f = floor_boundary(b, if offset <= b.len() { offset } else { b.len() as int });
            &&& 0 <= f <= offset
            &&& f <= b.len()
            &&& bytes_of(window_text(text, offset)) == b.skip(f)
        }),
{
    broadcast use encode_utf8_valid_utf8, decode_utf8_encode_utf8, valid_utf8_split;

    let b = bytes_of(text);
    let o = if offset <= b.len() { offset } else { b.len() as int };
    crate::compress::lemma_floor_boundary(b, o);
    let f = floor_boundary(b, o);
    assert(b.skip(f) =~= b.subrange(f, b.len() as int));
    assert(valid_utf8(b.subrange(f, b.len() as int)));
}

/// Paging law for budgeted windows: a window read from inside the text,
/// plain or fitted with its references, always moves forward — when it
/// reports a resume point, that point lies past the offset it was asked
/// for, so following `next_offset` never revisits a window.
pub proof fn lemma_budgeted_windows_advance(
    text: Seq<char>,
    offset: int,
    refs: Seq<RefV>,
    max_tokens: Option<usize>,
)
    requires
        0 <= offset < bytes_of(text).len(),
        bytes_of(text).len() <= usize::MAX,
    ensures
        plain_budget(text, offset, max_tokens).1.offset == offset,
        plain_budget(text, offset, max_tokens).1.next_offset matches Some(n) ==> offset < n,
        measured_window(text, offset, fit_consumed(window_text(text, offset), refs, max_tokens)).offset == offset,
        measured_window(text, offset, fit_consumed(window_text(text, offset), refs, max_tokens)).next_offset matches Some(n)
            ==> offset < n,
{
    lemma_window_text_bytes(text, offset);
    let w = window_text(text, offset);
    let wb = bytes_of(w);
    assert(wb.len() > 0);
    match max_tokens {
        Some(m) => {
            crate::compress::lemma_consumed_progress(wb, m as int);
            crate::compress::lemma_consumed_progress(
                wb,
                crate::refs::fit_budget_used(w, refs, m as int, 0, m as int),
            );
            lemma_measured_window_pages(text, offset, consumed(wb, m as int));
            lemma_measured_window_pages(
                text,
                offset,
                consumed(wb, crate::refs::fit_budget_used(w, refs, m as int, 0, m as int)),
            );
        },
        None => {
            lemma_measured_window_pages(text, offset, wb.len() as int);
        },
    }
}

/// The text of `text` from a byte offset: clamped, and moved back to a
/// character boundary.
pub open spec fn window_text(text: Seq<char>, offset: int) -> Seq<char> {
    let b = bytes_of(text);
    decode_utf8(
        b.skip(
            floor_boundary(
                b,
                if offset <= b.len() {
                    offset
                } else {
                    b.len() as int
                },
            ),
        ),
    )
}

/// Free-form text windowed at an offset and truncated to a budget, with the
/// window that covers.
pub open spec fn plain_budget(text: Seq<char>, offset: int, max_tokens: Option<usize>) -> (Seq<char>, Window) {
    let w = window_text(text, offset);
    match max_tokens {
        Some(m) => (
            truncated(w, m as int),
            measured_window(text, offset, consumed(bytes_of(w), m as int)),
        ),
        None => (w, measured_window(text, offset, bytes_of(w).len() as int)),
    }
}

fn window_of<'a>(text: &'a str, offset: usize) -> (r: &'a str)
    ensures
        r@ == window_text(text@, offset as int),
{
    let w = window_from(text, offset);
    proof {
        broadcast use encode_utf8_decode_utf8;

        assert(w@ == decode_utf8(bytes_of(w@)));
    }
    w
}

/// Window and truncate free-form text (no reference markers to preserve),
/// reporting the slice of the document it covers.
pub fn budget_plain(text: &str, offset: usize, max_tokens: Option<usize>) -> (r: (String, Window))
    ensures
        (r.0@, r.1) == plain_budget(text@, offset as int, max_tokens),
{
    let windowed = window_of(text, offset);
    match max_tokens {
        Some(max) => {
            let (content, used) = truncate_to_tokens_at(windowed, max);
            (content, Window::measured(text, offset, used))
        },
        None => (owned(windowed), Window::measured(text, offset, windowed.as_bytes().len())),
    }
}

/// Does the raw document carry a `<script` tag, in any case?
pub open spec fn has_script_tag(b: Seq<u8>) -> bool {
    exists|i: int|
        0 <= i && i + 7 <= b.len() && #[trigger] lower_byte(b[i]) == 0x3c && lower_byte(b[i + 1])
            == 0x73 && lower_byte(b[i + 2]) == 0x63 && lower_byte(b[i + 3]) == 0x72 && lower_byte(
            b[i + 4],
        ) == 0x69 && lower_byte(b[i + 5]) == 0x70 && lower_byte(b[i + 6]) == 0x74
}

fn low(c: u8) -> (r: u8)
    ensures
        r == lower_byte(c),
{
    if 0x41 <= c && c <= 0x5a {
        c + 32
    } else {
        c
    }
}

/// Does the raw document carry scripts? A shell with scripts and no text is
/// a client-rendered page, not an empty one.
pub fn has_scripts(raw: &str) -> (r: bool)
    ensures
        r == has_script_tag(bytes_of(raw@)),
{
    let b = raw.as_bytes();
    let n = b.len();
    if n < 7 {
        return false;
    }
    let mut i: usize = 0;
    while i <= n - 7
        invariant
            n == b@.len(),
            7 <= n,
            b@ == bytes_of(raw@),
            i <= n - 6,
            forall|k: int|
                0 <= k < i ==> !(#[trigger] lower_byte(b@[k]) == 0x3c && lower_byte(b@[k + 1])
                    == 0x73 && lower_byte(b@[k + 2]) == 0x63 && lower_byte(b@[k + 3]) == 0x72
                    && lower_byte(b@[k + 4]) == 0x69 && lower_byte(b@[k + 5]) == 0x70 && lower_byte(
                    b@[k + 6],
                ) == 0x74),
        decreases n - 6 - i,
    {
        if low(b[i]) == 0x3c && low(b[i + 1]) == 0x73 && low(b[i + 2]) == 0x63 && low(b[i + 3])
            == 0x72 && low(b[i + 4]) == 0x69 && low(b[i + 5]) == 0x70 && low(b[i + 6]) == 0x74 {
            return true;
        }
        i += 1;
    }
    false
}

/// A structured render of a page with nothing in it: JSON whose `blocks`
/// field is an empty array.
pub open spec fn empty_structured(content: Seq<char>) -> bool {
    match json_field_text(content, "blocks"@) {
        Some(t) => match json_items_text(t) {
            Some(items) => items.len() == 0,
            None => false,
        },
        None => false,
    }
}

pub fn is_empty_structured(content: &str) -> (r: bool)
    ensures
        r == empty_structured(content@),
{
    match json_field(content, "blocks") {
        Some(t) => match json_items(t.as_str()) {
            Some(items) => items.len() == 0,
            None => false,
        },
        None => false,
    }
}

/// Whether an extraction produced content: it did when the content is not
/// blank (nor, for HTML, an empty structured document); otherwise a page
/// with scripts needs a browser, and anything else is empty.
pub open spec fn status_of(media: MediaV, content: Seq<char>, raw: Seq<char>) -> ContentStatus {
    let html = media is Html;
    let empty = trim(content).len() == 0 || (html && empty_structured(content));
    if !empty {
        ContentStatus::Success
    } else if html && has_script_tag(bytes_of(raw)) {
        ContentStatus::NeedsJs
    } else {
        ContentStatus::Empty
    }
}

/// Decide whether an extraction actually produced content, and if not,
/// whether the page looks like it needs a browser.
pub fn classify_content(media: &Media, content: &str, raw: &str) -> (r: ContentStatus)
    ensures
        r == status_of(media.view_of(), content@, raw@),
{
    let html = match media {
        Media::Html => true,
        _ => false,
    };
    let blank = trim_str(content).as_str().is_empty();
    let empty = blank || (html && is_empty_structured(content));
    if !empty {
        return ContentStatus::Success;
    }
    if html && has_scripts(raw) {
        return ContentStatus::NeedsJs;
    }
    ContentStatus::Empty
}

/// `s` without its leading newlines.
pub open spec fn drop_newlines(s: Seq<char>) -> Seq<char>
    decreases s.len(),
{
    if s.len() > 0 && s[0] == '\n' {
        drop_newlines(s.drop_first())
    } else {
        s
    }
}

/// A body without a first line that merely repeats the title: only an exact
/// match after whitespace compression of the first line is removed, along
/// with the blank lines after it.
pub open spec fn without_title(title: Seq<char>, content: Seq<char>) -> Seq<char> {
    let k = find_char(content, '\n') as int;
    if title.len() == 0 {
        content
    } else if compress_spec(content.take(k)) == compress_spec(title) {
        if k < content.len() {
            drop_newlines(content.skip(k + 1))
        } else {
            Seq::<char>::empty()
        }
    } else {
        content
    }
}

proof fn lemma_drop_newlines_suffix(x: Seq<char>)
    ensures
        exists|i: int| 0 <= i <= x.len() && drop_newlines(x) == #[trigger] x.skip(i) && (forall|m: int|
            0 <= m < i ==> x[m] == '\n') && (i < x.len() ==> x[i] != '\n'),
    decreases x.len(),
{
    if x.len() > 0 && x[0] == '\n' {
        lemma_drop_newlines_suffix(x.drop_first());
        let i = choose|i: int| 0 <= i <= x.drop_first().len() && drop_newlines(x.drop_first()) == #[trigger] x.drop_first().skip(i)
            && (forall|m: int| 0 <= m < i ==> x.drop_first()[m] == '\n') && (i < x.drop_first().len() ==> x.drop_first()[i] != '\n');
        assert(x.drop_first().skip(i) =~= x.skip(i + 1));
        assert forall|m: int| 0 <= m < i + 1 implies x[m] == '\n' by {
            if m > 0 {
                assert(x[m] == x.drop_first()[m - 1]);
            }
        }
        if i + 1 < x.len() {
            assert(x[i + 1] == x.drop_first()[i]);
        }
    } else {
        assert(x.skip(0) =~= x);
    }
}

/// Title law: dropping a repeated title only ever removes a leading part of
/// the body — the whole first line, which must read as the title once
/// whitespace is compressed, and the blank lines right after it — and
/// leaves the rest exactly as it was; with no title, or a first line that
/// differs from it, the body is untouched.
pub proof fn lemma_title_drop_is_first_line(title: Seq<char>, content: Seq<char>)
    ensures
        title.len() == 0 ==> without_title(title, content) == content,
        compress_spec(content.take(find_char(content, '\n') as int)) != compress_spec(title) ==> without_title(
            title,
            content,
        ) == content,
        exists|i: int|
            0 <= i <= content.len() && without_title(title, content) == #[trigger] content.skip(i) && (i > 0 ==> (
            compress_spec(content.take(find_char(content, '\n') as int)) == compress_spec(title) && find_char(content, '\n')
                <= i && forall|m: int| find_char(content, '\n') <= m < i ==> content[m] == '\n')),
{
    crate::charset::lemma_find_char_bound(content, '\n');
    let k = find_char(content, '\n') as int;
    if title.len() == 0 || compress_spec(content.take(k)) != compress_spec(title) {
        assert(content.skip(0) =~= content);
        assert(without_title(title, content) == content.skip(0));
    } else if k < content.len() {
        let x = content.skip(k + 1);
        lemma_drop_newlines_suffix(x);
        let i = choose|i: int| 0 <= i <= x.len() && drop_newlines(x) == #[trigger] x.skip(i) && (forall|m: int|
            0 <= m < i ==> x[m] == '\n') && (i < x.len() ==> x[i] != '\n');
        assert(x.skip(i) =~= content.skip(k + 1 + i));
        assert forall|m: int| k <= m < k + 1 + i implies content[m] == '\n' by {
            if m > k {
                assert(content[m] == x[m - k - 1]);
            }
        }
        assert(without_title(title, content) == content.skip(k + 1 + i));
    } else {
        assert(content.skip(content.len() as int) =~= Seq::<char>::empty());
        assert(without_title(title, content) == content.skip(content.len() as int));
    }
}

/// Drop a leading body line that merely repeats the title.
pub fn strip_duplicate_title(title: &str, content: String) -> (r: String)
    ensures
        r@ == without_title(title@, content@),
{
    if title.is_empty() {
        return content;
    }
    let v = chars_vec(content.as_str());
    let mut k: usize = 0;
    while k < v.len() && v[k] != '\n'
        invariant
            k <= v@.len(),
            forall|j: int| 0 <= j < k ==> #[trigger] v@[j] != '\n',
        decreases v.len() - k,
    {
        k += 1;
    }
    proof {
        crate::charset::lemma_find_char_at(v@, '\n', k as int);
    }
    let first = crate::text::string_of_range(&v, 0, k);
    let a = compress_text(first.as_str());
    let b = compress_text(title);
    if !str_eq(a.as_str(), b.as_str()) {
        return content;
    }
    if k == v.len() {
        return String::new();
    }
    let mut s = k + 1;
    proof {
        assert(v@.skip(k + 1) == v@.skip(s as int));
    }
    while s < v.len() && v[s] == '\n'
        invariant
            k < s <= v@.len(),
            drop_newlines(v@.skip(k + 1)) == drop_newlines(v@.skip(s as int)),
        decreases v.len() - s,
    {
        proof {
            assert(v@.skip(s as int).drop_first() =~= v@.skip(s + 1));
        }
        s += 1;
    }
    proof {
        assert(v@.subrange(s as int, v@.len() as int) =~= v@.skip(s as int));
    }
    crate::text::string_of_range(&v, s, v.len())
}

/// The content of a [`Metadata`].
pub struct MetaV {
    pub description: Option<Seq<char>>,
    pub author: Option<Seq<char>>,
    pub published: Option<Seq<char>>,
    pub lang: Option<Seq<char>>,
    pub site_name: Option<Seq<char>>,
    pub charset: Option<Seq<char>>,
}

pub open spec fn meta_view(m: Metadata) -> MetaV {
    MetaV {
        description: opt_chars(m.description),
        author: opt_chars(m.author),
        published: opt_chars(m.published),
        lang: opt_chars(m.lang),
        site_name: opt_chars(m.site_name),
        charset: opt_chars(m.charset),
    }
}

/// Metadata with nothing known.
pub open spec fn no_meta() -> MetaV {
    MetaV {
        description: None,
        author: None,
        published: None,
        lang: None,
        site_name: None,
        charset: None,
    }
}

/// What the HTML branch extracts from a page.
pub struct Extraction {
    pub title: String,
    pub content: String,
    pub references: Vec<UrlReference>,
    pub metadata: Metadata,
    pub content_type: ContentType,
    pub window: Window,
    pub sections: Vec<Section>,
    pub matches: Vec<Match>,
}

/// The content of an [`Extraction`].
pub struct ExtractionV {
    pub title: Seq<char>,
    pub content: Seq<char>,
    pub refs: Seq<UrlRefV>,
    pub meta: MetaV,
    pub ctype: ContentType,
    pub window: Window,
    pub sections: Seq<SectionV>,
    pub matches: Seq<MatchV>,
}

pub open spec fn extraction_view(e: Extraction) -> ExtractionV {
    ExtractionV {
        title: e.title@,
        content: e.content@,
        refs: urefs_view(e.references@),
        meta: meta_view(e.metadata),
        ctype: e.content_type,
        window: e.window,
        sections: sections_view(e.sections@),
        matches: matches_view(e.matches@),
    }
}

/// The metadata a page declares, with the charset no decoder matches.
pub open spec fn page_meta(s: Seq<RawNode>, header: Option<Seq<char>>) -> MetaV {
    MetaV {
        description: meta_either(
            s,
            meta_sel("name", "description"),
            meta_sel("property", "og:description"),
        ),
        author: meta_either(s, meta_sel("name", "author"), meta_sel("property", "article:author")),
        published: meta_either(
            s,
            meta_sel("property", "article:published_time"),
            meta_sel("name", "date"),
        ),
        lang: lang_of(s),
        site_name: meta_value(s, meta_sel("property", "og:site_name")),
        charset: undecodable_of(header, s),
    }
}

/// The index and URL of each reference.
pub open spec fn uref_pairs(v: Seq<UrlRefV>) -> Seq<RefV> {
    v.map_values(|r: UrlRefV| (r.index, r.url))
}

/// Does `s` contain `u` as a contiguous run?
pub open spec fn has_run(s: Seq<char>, u: Seq<char>) -> bool {
    exists|i: int| 0 <= i && i + u.len() <= s.len() && #[trigger] s.subrange(i, i + u.len()) == u
}

/// What the HTML branch makes of a page: title and metadata, then the
/// converted body without a first line repeating the title; then a search
/// of that body when a pattern is given (or the reason the pattern was
/// refused), else its outline when one is asked for, else the body within
/// the budget: text windowed at the offset and fitted together with the
/// references it still cites; markdown windowed and truncated, keeping the
/// references whose URL survives in it; structured output cut to a prefix of
/// its blocks at which it fits (or none) where one block more would not.
pub open spec fn html_extracted(
    s: Seq<RawNode>,
    url: Seq<char>,
    header: Option<Seq<char>>,
    opts: FetchOptions,
    e: ExtractionV,
) -> bool {
    let ct = opts.content_type;
    let title = title_of(s);
    let conv = converted_of(s, url, ct);
    let body = without_title(title, conv.0);
    let whole = whole_window(body);
    &&& e.title == title
    &&& e.meta == page_meta(s, header)
    &&& e.ctype == ct
    &&& match opt_chars(opts.grep) {
        Some(p) => match regex_search(p, smart_case_insensitive(p), PATTERN_SIZE_LIMIT, body) {
            Ok(spans) => {
                let secs = outline_of(s, body);
                let ms = grep_from(body, spans, secs, 0, Seq::empty());
                &&& e.content == matches_text(ms, p, opts.max_tokens)
                &&& e.refs.len() == 0
                &&& e.window == whole
                &&& e.sections.len() == 0
                &&& e.matches == ms
            },
            Err(msg) => {
                &&& e.content == "[invalid search pattern /"@ + p + "/: "@ + msg + "]"@
                &&& e.refs.len() == 0
                &&& e.window == whole
                &&& e.sections.len() == 0
                &&& e.matches.len() == 0
            },
        },
        None => if opts.outline {
            let secs = outline_of(s, body);
            &&& e.content == outline_text(secs, opts.max_tokens)
            &&& e.refs.len() == 0
            &&& e.window == whole
            &&& e.sections == secs
            &&& e.matches.len() == 0
        } else {
            &&& e.sections.len() == 0
            &&& e.matches.len() == 0
            &&& match ct {
                ContentType::Text => {
                    let w = window_text(body, opts.offset as int);
                    let f = fit_spec(w, uref_pairs(conv.1), opts.max_tokens);
                    &&& e.content == f.0
                    &&& e.refs == conv.1.filter(|r: UrlRefV| f.1.contains(r.index))
                    &&& e.window == measured_window(
                        body,
                        opts.offset as int,
                        fit_consumed(w, uref_pairs(conv.1), opts.max_tokens),
                    )
                },
                ContentType::Markdown => {
                    let pb = plain_budget(body, opts.offset as int, opts.max_tokens);
                    &&& e.content == pb.0
                    &&& e.refs == conv.1.filter(|r: UrlRefV| has_run(pb.0, r.url))
                    &&& e.window == pb.1
                },
                ContentType::Structured => {
                    let sw = structured_walk(s, url);
                    let all = sw.0.len() as int;
                    &&& e.window == whole
                    &&& match opts.max_tokens {
                        Some(m) if !prefix_fits(sw.0, sw.1, all, m as int) => exists|k: int|
                            #![trigger render_prefix(sw.0, sw.1, k)]
                            0 <= k <= all && (k == 0 || prefix_fits(sw.0, sw.1, k, m as int)) && (forall|j: int|
                                k < j <= all ==> !#[trigger] prefix_fits(sw.0, sw.1, j, m as int)) && e.content
                                == render_prefix(sw.0, sw.1, k).0 && e.refs == render_prefix(
                                sw.0,
                                sw.1,
                                k,
                            ).1,
                        _ => e.content == render_prefix(sw.0, sw.1, all).0 && e.refs
                            == render_prefix(sw.0, sw.1, all).1,
                    }
                },
            }
        },
    }
}

/// Does `s` contain `u` as a contiguous run?
pub(crate) fn contains_run(s: &Vec<char>, u: &str) -> (r: bool)
    ensures
        r == has_run(s@, u@),
{
    let uv = chars_vec(u);
    let n = s.len();
    let m = uv.len();
    if m > n {
        assert forall|i: int| !(0 <= i && i + u@.len() <= s@.len() && #[trigger] s@.subrange(i, i + u@.len()) == u@) by {}
        return false;
    }
    let mut i: usize = 0;
    while i <= n - m
        invariant
            n == s@.len(),
            m == uv@.len(),
            uv@ == u@,
            m <= n,
            i <= n - m + 1,
            forall|k: int| 0 <= k < i ==> #[trigger] s@.subrange(k, k + m) != u@,
        decreases n - m + 1 - i,
    {
        let mut k: usize = 0;
        let mut same = true;
        while k < m
            invariant
                i + m <= n,
                n == s@.len(),
                m == uv@.len(),
                k <= m,
                same == (forall|t: int| 0 <= t < k ==> s@[i + t] == uv@[t]),
            decreases m - k,
        {
            if s[i + k] != uv[k] {
                same = false;
            }
            k += 1;
        }
        if same {
            assert(s@.subrange(i as int, i + m) =~= u@);
            return true;
        }
        proof {
            let t = choose|t: int| 0 <= t < m && s@[i + t] != uv@[t];
            assert(s@.subrange(i as int, i + m)[t] != u@[t]);
        }
        if i == n - m {
            return false;
        }
        i += 1;
    }
    false
}

fn contains_index(v: &Vec<usize>, x: usize) -> (r: bool)
    ensures
        r == v@.contains(x),
{
    let mut i: usize = 0;
    while i < v.len()
        invariant
            i <= v@.len(),
            forall|k: int| 0 <= k < i ==> v@[k] != x,
        decreases v.len() - i,
    {
        if v[i] == x {
            assert(v@[i as int] == x);
            return true;
        }
        i += 1;
    }
    false
}

/// The references whose index was kept, in order.
fn keep_indexed(refs: Vec<UrlReference>, kept: &Vec<usize>) -> (r: Vec<UrlReference>)
    ensures
        urefs_view(r@) == urefs_view(refs@).filter(|x: UrlRefV| kept@.contains(x.index)),
{
    let ghost rv = urefs_view(refs@);
    let ghost pred = |x: UrlRefV| kept@.contains(x.index);
    let mut out: Vec<UrlReference> = Vec::new();
    let mut i: usize = 0;
    while i < refs.len()
        invariant
            rv == urefs_view(refs@),
            pred == (|x: UrlRefV| kept@.contains(x.index)),
            i <= refs@.len(),
            urefs_view(out@) == rv.take(i as int).filter(pred),
        decreases refs.len() - i,
    {
        proof {
            reveal_with_fuel(Seq::filter, 1);
            assert(rv.take(i + 1).drop_last() =~= rv.take(i as int));
        }
        if contains_index(kept, refs[i].index) {
            let c = refs[i].duplicate();
            let ghost before = out@;
            out.push(c);
            proof {
                assert(urefs_view(before.push(c)) =~= urefs_view(before).push(c@));
            }
        }
        i += 1;
    }
    proof {
        assert(rv.take(refs@.len() as int) =~= rv);
    }
    out
}

/// The references whose URL survives in `content`, in order.
fn keep_mentioned(refs: Vec<UrlReference>, content: &str) -> (r: Vec<UrlReference>)
    ensures
        urefs_view(r@) == urefs_view(refs@).filter(|x: UrlRefV| has_run(content@, x.url)),
{
    let cv = chars_vec(content);
    let ghost rv = urefs_view(refs@);
    let ghost pred = |x: UrlRefV| has_run(content@, x.url);
    let mut out: Vec<UrlReference> = Vec::new();
    let mut i: usize = 0;
    while i < refs.len()
        invariant
            rv == urefs_view(refs@),
            cv@ == content@,
            pred == (|x: UrlRefV| has_run(content@, x.url)),
            i <= refs@.len(),
            urefs_view(out@) == rv.take(i as int).filter(pred),
        decreases refs.len() - i,
    {
        proof {
            reveal_with_fuel(Seq::filter, 1);
            assert(rv.take(i + 1).drop_last() =~= rv.take(i as int));
        }
        if contains_run(&cv, refs[i].url.as_str()) {
            let c = refs[i].duplicate();
            let ghost before = out@;
            out.push(c);
            proof {
                assert(urefs_view(before.push(c)) =~= urefs_view(before).push(c@));
            }
        }
        i += 1;
    }
    proof {
        assert(rv.take(refs@.len() as int) =~= rv);
    }
    out
}

/// The HTML branch of [`convert_body`]: the only one that parses, and it
/// parses once. Title, metadata, and the conversion all read the same tree.
pub fn convert_html_body(
    body: &str,
    source_url: &str,
    content_type_header: Option<&str>,
    options: &FetchOptions,
) -> (r: Extraction)
    ensures
        html_extracted(
            parsed_nodes(body@),
            source_url@,
            opt_str_chars(content_type_header),
            *options,
            extraction_view(r),
        ),
{
    let nodes = parse_html(body);
    convert_html_nodes(&nodes, source_url, content_type_header, options)
}

/// An extraction from a parsed page: title and metadata read off the node
/// list, the body converted to the requested format with a repeated title
/// dropped, then searched, outlined, or windowed and fitted to the budget.
pub fn convert_html_nodes(
    nodes: &Vec<RawNode>,
    source_url: &str,
    content_type_header: Option<&str>,
    options: &FetchOptions,
) -> (r: Extraction)
    ensures
        html_extracted(
            nodes@,
            source_url@,
            opt_str_chars(content_type_header),
            *options,
            extraction_view(r),
        ),
{
    let title = extract_title(nodes);
    let mut metadata = extract_metadata(nodes);
    metadata.charset = undecodable_charset(content_type_header, nodes);
    let ct = options.content_type;
    let converted = convert_parsed(nodes, source_url, ct);
    let Converted { content: converted_content, references: converted_refs } = converted;
    let body_text = strip_duplicate_title(title.as_str(), converted_content);
    let whole = Window::whole(body_text.as_str());
    if let Some(pattern) = &options.grep {
        match find_spans(pattern.as_str(), body_text.as_str()) {
            Ok(spans) => {
                let sections = outline(nodes, body_text.as_str());
                let matches = grep(body_text.as_str(), &spans, sections.as_slice());
                let rendered = grep_render(matches.as_slice(), pattern.as_str(), options.max_tokens);
                let references: Vec<UrlReference> = Vec::new();
                let no_sections: Vec<Section> = Vec::new();
                proof {
                    assert(urefs_view(references@) =~= Seq::<UrlRefV>::empty());
                    assert(sections_view(no_sections@) =~= Seq::<SectionV>::empty());
                }
                return Extraction {
                    title,
                    content: rendered,
                    references,
                    metadata,
                    content_type: ct,
                    window: whole,
                    sections: no_sections,
                    matches,
                };
            },
            Err(error) => {
                let mut content = owned("[invalid search pattern /");
                push_str(&mut content, pattern.as_str());
                push_str(&mut content, "/: ");
                push_str(&mut content, error.as_str());
                push_str(&mut content, "]");
                let references: Vec<UrlReference> = Vec::new();
                let no_sections: Vec<Section> = Vec::new();
                let no_matches: Vec<Match> = Vec::new();
                proof {
                    assert(urefs_view(references@) =~= Seq::<UrlRefV>::empty());
                    assert(sections_view(no_sections@) =~= Seq::<SectionV>::empty());
                    assert(matches_view(no_matches@) =~= Seq::<MatchV>::empty());
                    assert(content@ =~= "[invalid search pattern /"@ + pattern@ + "/: "@ + error@ + "]"@);
                }
                return Extraction {
                    title,
                    content,
                    references,
                    metadata,
                    content_type: ct,
                    window: whole,
                    sections: no_sections,
                    matches: no_matches,
                };
            },
        }
    }
    if options.outline {
        let sections = outline(nodes, body_text.as_str());
        let content = outline_render(sections.as_slice(), options.max_tokens);
        let references: Vec<UrlReference> = Vec::new();
        let no_matches: Vec<Match> = Vec::new();
        proof {
            assert(urefs_view(references@) =~= Seq::<UrlRefV>::empty());
            assert(matches_view(no_matches@) =~= Seq::<MatchV>::empty());
        }
        return Extraction {
            title,
            content,
            references,
            metadata,
            content_type: ct,
            window: whole,
            sections,
            matches: no_matches,
        };
    }
    let no_sections: Vec<Section> = Vec::new();
    let no_matches: Vec<Match> = Vec::new();
    proof {
        assert(sections_view(no_sections@) =~= Seq::<SectionV>::empty());
        assert(matches_view(no_matches@) =~= Seq::<MatchV>::empty());
        assert(pairs(converted_refs@) =~= uref_pairs(urefs_view(converted_refs@)));
    }
    match ct {
        ContentType::Text => {
            let windowed = window_of(body_text.as_str(), options.offset);
            let (content, kept, used) = fit_to_budget_measured(
                windowed,
                converted_refs.as_slice(),
                options.max_tokens,
            );
            let references = keep_indexed(converted_refs, &kept);
            let window = Window::measured(body_text.as_str(), options.offset, used);
            Extraction {
                title,
                content,
                references,
                metadata,
                content_type: ct,
                window,
                sections: no_sections,
                matches: no_matches,
            }
        },
        ContentType::Markdown => {
            let (content, window) = budget_plain(body_text.as_str(), options.offset, options.max_tokens);
            let references = keep_mentioned(converted_refs, content.as_str());
            Extraction {
                title,
                content,
                references,
                metadata,
                content_type: ct,
                window,
                sections: no_sections,
                matches: no_matches,
            }
        },
        ContentType::Structured => {
            let doc = structured(nodes, source_url);
            let (content, references) = budget_structured(&doc, options.max_tokens);
            Extraction {
                title,
                content,
                references,
                metadata,
                content_type: ct,
                window: whole,
                sections: no_sections,
                matches: no_matches,
            }
        },
    }
}

/// The window a result reports.
pub open spec fn result_window(r: FetchResult) -> Window {
    Window {
        total_token_estimate: r.total_token_estimate,
        total_bytes: r.total_bytes,
        offset: r.offset,
        next_offset: r.next_offset,
    }
}

/// What a result says of the page it came from, common to every kind of
/// body: where it came from, what kind it was, what its content costs,
/// whether the body continues, and whether content came back at all.
pub open spec fn result_frame(r: FetchResult, url: Seq<char>, media: MediaV, body: Seq<char>) -> bool {
    &&& r.final_url@ == url
    &&& r.source@ == url
    &&& r.media@ == media_label(media)
    &&& r.token_estimate == tokens(bytes_of(r.content@))
    &&& r.truncated == (r.next_offset is Some)
    &&& r.status == status_of(media, r.content@, body)
}

/// The message of a document refused for its nesting depth.
pub open spec fn refusal_text(depth: int) -> Seq<char> {
    "[document refused: nesting depth "@ + decimal(depth as nat) + " exceeds the limit of "@ + decimal(
        MAX_NESTING_DEPTH as nat,
    ) + " — parsing it would take minutes]"@
}

/// The result for a document refused before parsing.
pub open spec fn refused(r: FetchResult, url: Seq<char>, depth: int, ct: ContentType) -> bool {
    &&& r.content@ == refusal_text(depth)
    &&& r.token_estimate == tokens(bytes_of(r.content@))
    &&& r.total_token_estimate == tokens(bytes_of(r.content@))
    &&& r.total_bytes == bytes_of(r.content@).len()
    &&& r.offset == 0
    &&& r.next_offset is None
    &&& !r.truncated
    &&& r.outline@.len() == 0
    &&& r.matches@.len() == 0
    &&& r.status == ContentStatus::TooComplex
    &&& r.title@.len() == 0
    &&& r.final_url@ == url
    &&& r.source@ == url
    &&& r.content_type == ct
    &&& r.media@ == "html"@
    &&& r.references@.len() == 0
    &&& meta_view(r.metadata) == no_meta()
}

/// The summary of a body that is not rendered.
pub open spec fn unrendered_text(ct: Seq<char>, size: int) -> Seq<char> {
    "[non-text content: "@ + ct + ", "@ + decimal(size as nat) + " bytes — not rendered]"@
}

/// What a fetch of `body` converts to: HTML deeper than the nesting limit
/// is refused before parsing; HTML is extracted; JSON is pretty-printed
/// (or, when it does not parse, trimmed) and then windowed and budgeted as
/// structured output; other text is trimmed, windowed and budgeted; anything
/// else is summarized by its type and size.
pub open spec fn body_converted(
    body: Seq<char>,
    url: Seq<char>,
    header: Option<Seq<char>>,
    opts: FetchOptions,
    r: FetchResult,
) -> bool {
    let media = media_of(header, body);
    let depth = crate::limits::nesting_depth(bytes_of(body));
    if media is Html && depth > MAX_NESTING_DEPTH {
        refused(r, url, depth, opts.content_type)
    } else {
        &&& result_frame(r, url, media, body)
        &&& match media {
            MediaV::Html => html_extracted(
                parsed_nodes(body),
                url,
                header,
                opts,
                ExtractionV {
                    title: r.title@,
                    content: r.content@,
                    refs: urefs_view(r.references@),
                    meta: meta_view(r.metadata),
                    ctype: r.content_type,
                    window: result_window(r),
                    sections: sections_view(r.outline@),
                    matches: matches_view(r.matches@),
                },
            ),
            MediaV::Other(ct) => {
                let content = unrendered_text(ct, bytes_of(body).len() as int);
                &&& r.content@ == content
                &&& result_window(r) == whole_window(content)
                &&& r.content_type == opts.content_type
                &&& r.title@.len() == 0
                &&& r.references@.len() == 0
                &&& meta_view(r.metadata) == no_meta()
                &&& r.outline@.len() == 0
                &&& r.matches@.len() == 0
            },
            _ => {
                let source = if media is Json {
                    match json_pretty_text(body) {
                        Some(p) => p,
                        None => trim(body),
                    }
                } else {
                    trim(body)
                };
                let pb = plain_budget(source, opts.offset as int, opts.max_tokens);
                &&& r.content@ == pb.0
                &&& result_window(r) == pb.1
                &&& r.content_type == (if media is Json {
                    ContentType::Structured
                } else {
                    ContentType::Text
                })
                &&& r.title@.len() == 0
                &&& r.references@.len() == 0
                &&& meta_view(r.metadata) == no_meta()
                &&& r.outline@.len() == 0
                &&& r.matches@.len() == 0
            },
        }
    }
}

/// The result returned for a document refused for its nesting depth.
fn too_complex_result(source_url: &str, depth: usize, content_type: ContentType) -> (r: FetchResult)
    ensures
        refused(r, source_url@, depth as int, content_type),
{
    let mut content = owned("[document refused: nesting depth ");
    let d = usize_to_string(depth);
    push_str(&mut content, d.as_str());
    push_str(&mut content, " exceeds the limit of ");
    let lim = usize_to_string(MAX_NESTING_DEPTH);
    push_str(&mut content, lim.as_str());
    push_str(&mut content, " — parsing it would take minutes]");
    assert(content@ =~= refusal_text(depth as int));
    let tokens_here = estimate_tokens(content.as_str());
    let size = content.as_str().as_bytes().len();
    FetchResult {
        token_estimate: tokens_here,
        total_token_estimate: tokens_here,
        total_bytes: size,
        offset: 0,
        next_offset: None,
        truncated: false,
        outline: Vec::new(),
        matches: Vec::new(),
        status: ContentStatus::TooComplex,
        title: String::new(),
        final_url: owned(source_url),
        content,
        content_type,
        media: owned("html"),
        references: Vec::new(),
        metadata: Metadata::default(),
        source: owned(source_url),
    }
}

fn assemble_result(
    source_url: &str,
    body: &str,
    media: &Media,
    e: Extraction,
) -> (r: FetchResult)
    ensures
        result_frame(r, source_url@, media.view_of(), body@),
        r.title@ == e.title@,
        r.content@ == e.content@,
        r.references@ == e.references@,
        r.metadata == e.metadata,
        r.content_type == e.content_type,
        result_window(r) == e.window,
        r.outline@ == e.sections@,
        r.matches@ == e.matches@,
{
    let status = classify_content(media, e.content.as_str(), body);
    let token_estimate = estimate_tokens(e.content.as_str());
    let truncated = e.window.next_offset.is_some();
    FetchResult {
        token_estimate,
        total_token_estimate: e.window.total_token_estimate,
        total_bytes: e.window.total_bytes,
        offset: e.window.offset,
        next_offset: e.window.next_offset,
        truncated,
        outline: e.sections,
        matches: e.matches,
        status,
        title: e.title,
        final_url: owned(source_url),
        content: e.content,
        content_type: e.content_type,
        media: media.label(),
        references: e.references,
        metadata: e.metadata,
        source: owned(source_url),
    }
}

fn plain_extraction(content: String, window: Window, content_type: ContentType) -> (r: Extraction)
    ensures
        r.title@.len() == 0,
        r.content == content,
        r.references@.len() == 0,
        meta_view(r.metadata) == no_meta(),
        r.content_type == content_type,
        r.window == window,
        r.sections@.len() == 0,
        r.matches@.len() == 0,
{
    Extraction {
        title: String::new(),
        content,
        references: Vec::new(),
        metadata: Metadata::default(),
        content_type,
        window,
        sections: Vec::new(),
        matches: Vec::new(),
    }
}

/// Convert a fetched body to a [`FetchResult`], choosing how to treat it by
/// its `Content-Type` (or a sniff of the body).
pub fn convert_body(
    body: &str,
    source_url: &str,
    content_type_header: Option<&str>,
    options: &FetchOptions,
) -> (r: FetchResult)
    ensures
        body_converted(body@, source_url@, opt_str_chars(content_type_header), *options, r),
{
    let media = classify_media(content_type_header, body);
    if let Media::Html = media {
        if let Some(depth) = crate::limits::too_deeply_nested(body) {
            return too_complex_result(source_url, depth, options.content_type);
        }
    }
    let e = match &media {
        Media::Html => convert_html_body(body, source_url, content_type_header, options),
        Media::Json => {
            let pretty = match json_pretty(body) {
                Some(p) => p,
                None => trim_str(body),
            };
            let (content, window) = budget_plain(pretty.as_str(), options.offset, options.max_tokens);
            plain_extraction(content, window, ContentType::Structured)
        },
        Media::Text => {
            let trimmed = trim_str(body);
            let (content, window) = budget_plain(trimmed.as_str(), options.offset, options.max_tokens);
            plain_extraction(content, window, ContentType::Text)
        },
        Media::Other(ct) => {
            let mut content = owned("[non-text content: ");
            push_str(&mut content, ct.as_str());
            push_str(&mut content, ", ");
            let n = usize_to_string(body.as_bytes().len());
            push_str(&mut content, n.as_str());
            push_str(&mut content, " bytes — not rendered]");
            assert(content@ =~= unrendered_text(ct@, bytes_of(body@).len() as int));
            let window = Window::whole(content.as_str());
            plain_extraction(content, window, options.content_type)
        },
    };
    let r = assemble_result(source_url, body, &media, e);
    proof {
        assert(urefs_view(r.references@) == urefs_view(e.references@));
        assert(sections_view(r.outline@) == sections_view(e.sections@));
        assert(matches_view(r.matches@) == matches_view(e.matches@));
    }
    r
}

/// Convert already-fetched HTML into a [`FetchResult`] without any network
/// I/O. Always treats the input as HTML.
pub fn convert_html(html: &str, source_url: &str, options: &FetchOptions) -> (r: FetchResult)
    ensures
        body_converted(html@, source_url@, Some("text/html"@), *options, r),
{
    convert_body(html, source_url, Some("text/html"), options)
}


/// A converted result restated for a fetched page: `source` is what was
/// asked for, `final_url` where the page came from, and a charset the fetch
/// could not decode is reported in place of whatever the markup declared.
pub open spec fn page_result(r0: FetchResult, page: FetchedPage, source: String) -> FetchResult {
    FetchResult {
        source,
        final_url: page.final_url,
        metadata: if page.undecodable_charset is Some {
            Metadata { charset: page.undecodable_charset, ..r0.metadata }
        } else {
            r0.metadata
        },
        ..r0
    }
}

/// Convert an already-fetched page according to `options`, exactly as a
/// live fetch would.
pub fn convert_page(page: FetchedPage, options: &FetchOptions) -> (r: FetchResult)
    ensures
        exists|r0: FetchResult|
            #![auto]
            body_converted(page.body@, page.final_url@, opt_chars(page.content_type), *options, r0)
                && r.source@ == options.url@ && r == page_result(r0, page, r.source),
{
    let ct: Option<&str> = match &page.content_type {
        Some(c) => Some(c.as_str()),
        None => None,
    };
    let r0 = convert_body(page.body.as_str(), page.final_url.as_str(), ct, options);
    let ghost g0 = r0;
    let mut result = r0;
    result.source = owned(options.url.as_str());
    result.final_url = page.final_url;
    if page.undecodable_charset.is_some() {
        result.metadata.charset = page.undecodable_charset;
    }
    proof {
        assert(opt_str_chars(ct) == opt_chars(page.content_type));
        assert(result == page_result(g0, page, result.source));
        assert(body_converted(page.body@, page.final_url@, opt_chars(page.content_type), *options, g0));
    }
    result
}

/// One page, one extraction: the relation [`html_extracted`] admits a single
/// result for given nodes, URL, header and options.
pub proof fn lemma_html_extracted_unique(
    s: Seq<RawNode>,
    url: Seq<char>,
    header: Option<Seq<char>>,
    opts: FetchOptions,
    e1: ExtractionV,
    e2: ExtractionV,
)
    requires
        html_extracted(s, url, header, opts, e1),
        html_extracted(s, url, header, opts, e2),
    ensures
        e1 == e2,
{
    if e1.refs.len() == 0 && e2.refs.len() == 0 {
        assert(e1.refs =~= e2.refs);
    }
    if e1.sections.len() == 0 && e2.sections.len() == 0 {
        assert(e1.sections =~= e2.sections);
    }
    if e1.matches.len() == 0 && e2.matches.len() == 0 {
        assert(e1.matches =~= e2.matches);
    }
    if opt_chars(opts.grep) is None && !opts.outline && opts.content_type is Structured {
        let sw = structured_walk(s, url);
        let all = sw.0.len() as int;
        if let Some(m) = opts.max_tokens {
            if !prefix_fits(sw.0, sw.1, all, m as int) {
                let k1 = choose|k: int|
                    #![trigger render_prefix(sw.0, sw.1, k)]
                    0 <= k <= all && (k == 0 || prefix_fits(sw.0, sw.1, k, m as int)) && (forall|j: int|
                        k < j <= all ==> !#[trigger] prefix_fits(sw.0, sw.1, j, m as int)) && e1.content
                        == render_prefix(sw.0, sw.1, k).0 && e1.refs == render_prefix(sw.0, sw.1, k).1;
                let k2 = choose|k: int|
                    #![trigger render_prefix(sw.0, sw.1, k)]
                    0 <= k <= all && (k == 0 || prefix_fits(sw.0, sw.1, k, m as int)) && (forall|j: int|
                        k < j <= all ==> !#[trigger] prefix_fits(sw.0, sw.1, j, m as int)) && e2.content
                        == render_prefix(sw.0, sw.1, k).0 && e2.refs == render_prefix(sw.0, sw.1, k).1;
                if k1 < k2 {
                    assert(!prefix_fits(sw.0, sw.1, k2, m as int));
                } else if k2 < k1 {
                    assert(!prefix_fits(sw.0, sw.1, k1, m as int));
                }
                assert(k1 == k2);
            }
        }
    }
}

/// A page converts one way: any two results the conversion of one body
/// admits agree on the content, the status, the title and the references.
pub proof fn lemma_body_converted_unique(
    body: Seq<char>,
    url: Seq<char>,
    header: Option<Seq<char>>,
    opts: FetchOptions,
    r1: FetchResult,
    r2: FetchResult,
)
    requires
        body_converted(body, url, header, opts, r1),
        body_converted(body, url, header, opts, r2),
    ensures
        r1.content@ == r2.content@,
        r1.status == r2.status,
        r1.title@ == r2.title@,
        urefs_view(r1.references@) == urefs_view(r2.references@),
{
    let media = media_of(header, body);
    if r1.references@.len() == 0 && r2.references@.len() == 0 {
        assert(urefs_view(r1.references@) =~= urefs_view(r2.references@));
    }
    if r1.title@.len() == 0 && r2.title@.len() == 0 {
        assert(r1.title@ =~= r2.title@);
    }
    let depth = crate::limits::nesting_depth(bytes_of(body));
    if !(media is Html && depth > MAX_NESTING_DEPTH) && media is Html {
        let e1 = ExtractionV {
            title: r1.title@,
            content: r1.content@,
            refs: urefs_view(r1.references@),
            meta: meta_view(r1.metadata),
            ctype: r1.content_type,
            window: result_window(r1),
            sections: sections_view(r1.outline@),
            matches: matches_view(r1.matches@),
        };
        let e2 = ExtractionV {
            title: r2.title@,
            content: r2.content@,
            refs: urefs_view(r2.references@),
            meta: meta_view(r2.metadata),
            ctype: r2.content_type,
            window: result_window(r2),
            sections: sections_view(r2.outline@),
            matches: matches_view(r2.matches@),
        };
        lemma_html_extracted_unique(parsed_nodes(body), url, header, opts, e1, e2);
    }
}

/// What a fetched page converts to is what its body converts to: the same
/// content, status, title and references, now credited to the URL that was
/// asked for and the URL the page came from, with the charset verdict of
/// the fetch when it has one.
pub proof fn lemma_page_is_its_body(page: FetchedPage, options: FetchOptions, r: FetchResult, rb: FetchResult)
    requires
        exists|r0: FetchResult|
            #![auto]
            body_converted(page.body@, page.final_url@, opt_chars(page.content_type), options, r0)
                && r.source@ == options.url@ && r == page_result(r0, page, r.source),
        body_converted(page.body@, page.final_url@, opt_chars(page.content_type), options, rb),
    ensures
        r.content@ == rb.content@,
        r.status == rb.status,
        r.title@ == rb.title@,
        urefs_view(r.references@) == urefs_view(rb.references@),
        r.source@ == options.url@,
        r.final_url == page.final_url,
        page.undecodable_charset is Some ==> r.metadata.charset == page.undecodable_charset,
{
    let r0 = choose|r0: FetchResult|
        #![auto]
        body_converted(page.body@, page.final_url@, opt_chars(page.content_type), options, r0)
            && r.source@ == options.url@ && r == page_result(r0, page, r.source);
    lemma_body_converted_unique(page.body@, page.final_url@, opt_chars(page.content_type), options, r0, rb);
}

} // verus!
