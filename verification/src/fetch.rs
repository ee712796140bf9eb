//! What a fetch brings back, and the decisions the fetch loop makes: which
//! charset a body declares in its markup, when a failed request is worth
//! another try, and when a redirect chain has gone on too long.
//!
//! The requests themselves are made by the caller; this module decides.

use vstd::prelude::*;

use crate::convert::links::{join_url, url_joined};
use crate::charset::{content_type_charset, from_content_type, from_utf8_lossy, utf8_lossy};
use crate::text::{chars_vec, is_whitespace, is_ws, lead_ws, lemma_lead_ws_at, lower_seq, opt_chars, opt_str_chars, string_of_range, to_ascii_lowercase};

verus! {

/// Outcome of an HTTP fetch: the body, the URL landed on after redirects,
/// the response's `Content-Type`, and a declared charset that could not be
/// decoded (the body was then read as UTF-8 and may be garbled).
#[derive(Debug, Clone)]
pub struct FetchedPage {
    pub body: String,
    pub final_url: String,
    pub content_type: Option<String>,
    pub undecodable_charset: Option<String>,
}

/// How many bytes of a body are searched for a `<meta charset>`.
pub const META_WINDOW: usize = 2048;

/// Attempts per request before a transient failure is final.
pub const MAX_ATTEMPTS: u32 = 3;

/// Redirects followed before a fetch is refused.
pub const MAX_REDIRECTS: usize = 5;

/// The whole fetch, retries and redirects included, is bounded at this many
/// times the per-request timeout.
pub const TOTAL_BUDGET_MULTIPLIER: u32 = 3;

/// The first position at or after `i` where `u` occurs in `s`.
pub open spec fn run_from(s: Seq<char>, u: Seq<char>, i: int) -> Option<int>
    decreases s.len() + 1 - i,
{
    if i < 0 || i + u.len() > s.len() {
        None
    } else if s.subrange(i, i + u.len()) == u {
        Some(i)
    } else {
        run_from(s, u, i + 1)
    }
}

/// Characters a charset name is made of.
pub open spec fn name_char(c: char) -> bool {
    ('a' <= c && c <= 'z') || ('A' <= c && c <= 'Z') || ('0' <= c && c <= '9') || c == '-' || c
        == '_'
}

/// Leading characters of `s` that can be part of a charset name.
pub open spec fn name_len(s: Seq<char>) -> nat
    decreases s.len(),
{
    if s.len() > 0 && name_char(s[0]) {
        1 + name_len(s.drop_first())
    } else {
        0
    }
}

/// Leading quote characters of `s`, double or single.
pub open spec fn quote_len(s: Seq<char>) -> nat
    decreases s.len(),
{
    if s.len() > 0 && (s[0] == '"' || s[0] == '\'') {
        1 + quote_len(s.drop_first())
    } else {
        0
    }
}

/// `s` without leading whitespace.
pub open spec fn trim_start(s: Seq<char>) -> Seq<char> {
    s.skip(lead_ws(s) as int)
}

/// The charset a body declares in its first 2 KiB: read lossily as UTF-8
/// and lowercased, the first `charset` followed (past whitespace) by `=`,
/// then (past whitespace and quotes) a run of name characters, if not empty.
pub open spec fn meta_charset(raw: Seq<u8>) -> Option<Seq<char>> {
    let head = raw.take(
        if raw.len() < META_WINDOW {
            raw.len() as int
        } else {
            META_WINDOW as int
        },
    );
    let text = lower_seq(utf8_lossy(head));
    match run_from(text, "charset"@, 0) {
        None => None,
        Some(at) => {
            let r1 = trim_start(text.skip(at + 7));
            if r1.len() == 0 || r1[0] != '=' {
                None
            } else {
                let r2 = trim_start(r1.skip(1));
                let r3 = r2.skip(quote_len(r2) as int);
                let v = r3.take(name_len(r3) as int);
                if v.len() > 0 {
                    Some(v)
                } else {
                    None
                }
            }
        },
    }
}

fn skip_ws(v: &Vec<char>, from: usize) -> (r: usize)
    requires
        from <= v@.len(),
    ensures
        from <= r <= v@.len(),
        v@.skip(r as int) == trim_start(v@.skip(from as int)),
{
    let mut i = from;
    while i < v.len() && is_whitespace(v[i])
        invariant
            from <= i <= v@.len(),
            forall|k: int| from <= k < i ==> is_ws(#[trigger] v@[k]),
        decreases v.len() - i,
    {
        i += 1;
    }
    proof {
        let t = v@.skip(from as int);
        assert forall|k: int| 0 <= k < i - from implies is_ws(#[trigger] t[k]) by {
            assert(t[k] == v@[k + from]);
        }
        if i < v@.len() {
            assert(t[i - from] == v@[i as int]);
        }
        lemma_lead_ws_at(t, i - from);
        assert(t.skip(i - from) =~= v@.skip(i as int));
    }
    i
}

proof fn lemma_quote_len(s: Seq<char>, i: int)
    requires
        0 <= i <= s.len(),
        forall|k: int| 0 <= k < i ==> (#[trigger] s[k] == '"' || s[k] == '\''),
        i == s.len() || !(s[i] == '"' || s[i] == '\''),
    ensures
        quote_len(s) == i,
    decreases i,
{
    if i > 0 {
        assert forall|k: int| 0 <= k < i - 1 implies (#[trigger] s.drop_first()[k] == '"'
            || s.drop_first()[k] == '\'') by {
            assert(s.drop_first()[k] == s[k + 1]);
        }
        if i < s.len() {
            assert(s.drop_first()[i - 1] == s[i]);
        }
        lemma_quote_len(s.drop_first(), i - 1);
    }
}

proof fn lemma_name_len(s: Seq<char>, i: int)
    requires
        0 <= i <= s.len(),
        forall|k: int| 0 <= k < i ==> name_char(#[trigger] s[k]),
        i == s.len() || !name_char(s[i]),
    ensures
        name_len(s) == i,
    decreases i,
{
    if i > 0 {
        assert forall|k: int| 0 <= k < i - 1 implies name_char(#[trigger] s.drop_first()[k]) by {
            assert(s.drop_first()[k] == s[k + 1]);
        }
        if i < s.len() {
            assert(s.drop_first()[i - 1] == s[i]);
        }
        lemma_name_len(s.drop_first(), i - 1);
    }
}

fn is_name_char(c: char) -> (r: bool)
    ensures
        r == name_char(c),
{
    ('a' <= c && c <= 'z') || ('A' <= c && c <= 'Z') || ('0' <= c && c <= '9') || c == '-' || c
        == '_'
}

fn find_charset(v: &Vec<char>) -> (r: Option<usize>)
    ensures
        r matches Some(k) ==> run_from(v@, "charset"@, 0) == Some(k as int) && k + 7 <= v@.len(),
        r is None ==> run_from(v@, "charset"@, 0) is None,
{
    let pat = chars_vec("charset");
    proof {
        reveal_strlit("charset");
    }
    let n = v.len();
    if n < 7 {
        return None;
    }
    let mut i: usize = 0;
    while i <= n - 7
        invariant
            n == v@.len(),
            7 <= n,
            pat@ == "charset"@,
            pat@.len() == 7,
            run_from(v@, "charset"@, 0) == run_from(v@, "charset"@, i as int),
        decreases n - 6 - i,
    {
        let mut k: usize = 0;
        let mut same = true;
        while k < 7
            invariant
                i + 7 <= n,
                n == v@.len(),
                pat@.len() == 7,
                k <= 7,
                same == (forall|t: int| 0 <= t < k ==> v@[i + t] == pat@[t]),
            decreases 7 - k,
        {
            if v[i + k] != pat[k] {
                same = false;
            }
            k += 1;
        }
        if same {
            assert(v@.subrange(i as int, i + 7) =~= pat@);
            return Some(i);
        }
        proof {
            let t = choose|t: int| 0 <= t < 7 && v@[i + t] != pat@[t];
            assert(v@.subrange(i as int, i + 7)[t] != pat@[t]);
            assert(run_from(v@, "charset"@, i as int) == run_from(v@, "charset"@, i + 1));
            if i == n - 7 {
                assert(run_from(v@, "charset"@, i + 1) is None);
            }
        }
        if i == n - 7 {
            return None;
        }
        i += 1;
    }
    None
}

/// Find `<meta charset=…>` in the head of a body whose header declared
/// nothing. Only the first 2 KiB are searched: the declaration is required
/// to appear early.
pub fn sniff_meta_charset(raw: &[u8]) -> (r: Option<String>)
    ensures
        opt_chars(r) == meta_charset(raw@),
{
    let n = raw.len();
    let cut = if n < META_WINDOW {
        n
    } else {
        META_WINDOW
    };
    let head = vstd::slice::slice_subrange(raw, 0, cut);
    proof {
        assert(head@ =~= raw@.take(cut as int));
    }
    let text = from_utf8_lossy(head);
    let v = to_ascii_lowercase(&chars_vec(text.as_str()));
    let at = match find_charset(&v) {
        Some(k) => k,
        None => {
            return None;
        },
    };
    assert(at + 7 <= v.len());
    let p1 = skip_ws(&v, at + 7);
    if p1 >= v.len() || v[p1] != '=' {
        return None;
    }
    let p2 = skip_ws(&v, p1 + 1);
    proof {
        assert(v@.skip(p1 as int).skip(1) =~= v@.skip(p1 + 1));
    }
    let mut p3 = p2;
    while p3 < v.len() && (v[p3] == '"' || v[p3] == '\'')
        invariant
            p2 <= p3 <= v@.len(),
            forall|k: int| p2 <= k < p3 ==> (#[trigger] v@[k] == '"' || v@[k] == '\''),
        decreases v.len() - p3,
    {
        p3 += 1;
    }
    proof {
        let t = v@.skip(p2 as int);
        assert forall|k: int| 0 <= k < p3 - p2 implies (#[trigger] t[k] == '"' || t[k] == '\'') by {
            assert(t[k] == v@[k + p2]);
        }
        if p3 < v@.len() {
            assert(t[p3 - p2] == v@[p3 as int]);
        }
        lemma_quote_len(t, p3 - p2);
        assert(t.skip(p3 - p2) =~= v@.skip(p3 as int));
    }
    let mut p4 = p3;
    while p4 < v.len() && is_name_char(v[p4])
        invariant
            p3 <= p4 <= v@.len(),
            forall|k: int| p3 <= k < p4 ==> name_char(#[trigger] v@[k]),
        decreases v.len() - p4,
    {
        p4 += 1;
    }
    proof {
        let t = v@.skip(p3 as int);
        assert forall|k: int| 0 <= k < p4 - p3 implies name_char(#[trigger] t[k]) by {
            assert(t[k] == v@[k + p3]);
        }
        if p4 < v@.len() {
            assert(t[p4 - p3] == v@[p4 as int]);
        }
        lemma_name_len(t, p4 - p3);
        assert(t.take(p4 - p3) =~= v@.subrange(p3 as int, p4 as int));
    }
    if p4 == p3 {
        return None;
    }
    Some(string_of_range(&v, p3, p4))
}

/// Where a redirect leads: its `Location` resolved against the URL that
/// answered, as the `url` crate joins them; `None` when that fails.
pub fn redirect_target(current: &str, location: &str) -> (r: Option<String>)
    ensures
        opt_chars(r) == url_joined(current@, location@),
{
    join_url(current, location)
}

/// The charset a response declares: the `Content-Type` header's, else the
/// one a `<meta>` tag names near the top of the body.
pub open spec fn declared_charset_of(content_type: Option<Seq<char>>, raw: Seq<u8>) -> Option<Seq<char>> {
    let from_header = match content_type {
        Some(h) => content_type_charset(h),
        None => None,
    };
    match from_header {
        Some(c) => Some(c),
        None => meta_charset(raw),
    }
}

pub fn declared_charset(content_type: Option<&str>, raw: &[u8]) -> (r: Option<String>)
    ensures
        opt_chars(r) == declared_charset_of(opt_str_chars(content_type), raw@),
{
    let from_header = match content_type {
        Some(h) => from_content_type(h),
        None => None,
    };
    match from_header {
        Some(c) => Some(c),
        None => sniff_meta_charset(raw),
    }
}

/// Should a failed attempt be retried? Only a transient failure, before the
/// last attempt, when waiting would not pass the fetch's deadline.
pub open spec fn retry_allowed(attempt_no: u32, transient: bool, wait_passes_deadline: bool) -> bool {
    transient && attempt_no < MAX_ATTEMPTS && !wait_passes_deadline
}

pub fn should_retry(attempt_no: u32, transient: bool, wait_passes_deadline: bool) -> (r: bool)
    ensures
        r == retry_allowed(attempt_no, transient, wait_passes_deadline),
{
    transient && attempt_no < MAX_ATTEMPTS && !wait_passes_deadline
}

/// The backoff after a failed attempt: double the last one, capped rather
/// than overflowing.
pub fn next_delay_ms(delay_ms: u64) -> (r: u64)
    ensures
        r == (if delay_ms <= u64::MAX / 2 {
            2 * delay_ms
        } else {
            u64::MAX as int
        }),
{
    if delay_ms <= u64::MAX / 2 {
        2 * delay_ms
    } else {
        u64::MAX
    }
}

/// May one more redirect be followed after `hops` of them?
pub fn redirect_allowed(hops: usize) -> (r: bool)
    ensures
        r == (hops < MAX_REDIRECTS),
{
    hops < MAX_REDIRECTS
}

/// The whole-fetch budget in seconds for a per-request timeout.
pub fn total_budget_secs(timeout_secs: u64) -> (r: u64)
    ensures
        r == (if timeout_secs <= u64::MAX / 3 {
            3 * timeout_secs
        } else {
            u64::MAX as int
        }),
{
    if timeout_secs <= u64::MAX / 3 {
        timeout_secs * 3
    } else {
        u64::MAX
    }
}

} // verus!
