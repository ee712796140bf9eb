//! Search backends: which one answers, and the credential it needs.
//!
//! DuckDuckGo Lite needs no key and stays the default. The keyed providers
//! exist so a caller who cares about reliability can use a real API contract.

pub mod brave;
pub mod ddg;
pub mod searxng;
pub mod tavily;

use vstd::prelude::*;

use crate::compress::{compress_spec, compress_text};
use crate::json::{json_field, json_field_text, json_is_valid, json_items, json_items_text, json_string, json_string_value, json_valid, strings_view};
use crate::search::extract::{hits_view, HitV};
use crate::search::types::{SearchResult, SearchStatus};
use crate::text::{chars_vec, chars_eq_str, owned, push_str, to_ascii_lowercase, trim_bounds, trim, lower_seq, opt_str_chars};

verus! {

/// Query parameters as name and value texts.
pub open spec fn params_view(v: Seq<(String, String)>) -> Seq<(Seq<char>, Seq<char>)> {
    v.map_values(|p: (String, String)| (p.0@, p.1@))
}

/// The safe-search parameter, in a provider's own spelling of on and off;
/// none when the caller leaves it to the provider.
pub open spec fn safe_param(safe: Option<bool>, on: Seq<char>, off: Seq<char>) -> Seq<(Seq<char>, Seq<char>)> {
    match safe {
        Some(true) => seq![("safesearch"@, on)],
        Some(false) => seq![("safesearch"@, off)],
        None => Seq::empty(),
    }
}

/// Append one query parameter.
pub fn push_param(params: &mut Vec<(String, String)>, name: &str, value: &str)
    ensures
        params_view(final(params)@) == params_view(old(params)@).push((name@, value@)),
{
    params.push((owned(name), owned(value)));
    proof {
        assert(params_view(final(params)@) =~= params_view(old(params)@).push((name@, value@)));
    }
}

/// Append the safe-search parameter, when one is asked for.
pub fn push_safe_param(params: &mut Vec<(String, String)>, safe: Option<bool>, on: &str, off: &str)
    ensures
        params_view(final(params)@) == params_view(old(params)@) + safe_param(safe, on@, off@),
{
    match safe {
        Some(true) => push_param(params, "safesearch", on),
        Some(false) => push_param(params, "safesearch", off),
        None => {},
    }
    proof {
        assert(params_view(final(params)@) =~= params_view(old(params)@) + safe_param(safe, on@, off@));
    }
}

/// Which backend answers a search, and the credential it needs.
pub enum Provider {
    /// Scraped DuckDuckGo Lite. No key, no contract. The default.
    Duckduckgo,
    /// Brave Search API.
    Brave { api_key: String },
    /// Tavily, which returns cleaned page content alongside each hit.
    Tavily { api_key: String },
    /// A self-hosted SearXNG instance's JSON API.
    Searxng { base_url: String, api_key: Option<String> },
}

impl Default for Provider {
    fn default() -> (r: Self)
        ensures
            r is Duckduckgo,
    {
        Provider::Duckduckgo
    }
}

/// The stable identifier of each backend.
pub open spec fn provider_label(p: Provider) -> Seq<char> {
    match p {
        Provider::Duckduckgo => "duckduckgo"@,
        Provider::Brave { .. } => "brave"@,
        Provider::Tavily { .. } => "tavily"@,
        Provider::Searxng { .. } => "searxng"@,
    }
}

/// The backend a name selects: surrounding whitespace and case are ignored,
/// and `ddg` and `searx` are accepted as aliases.
pub open spec fn provider_name(s: Seq<char>) -> Option<Seq<char>> {
    let l = lower_seq(trim(s));
    if l == "duckduckgo"@ || l == "ddg"@ {
        Some("duckduckgo"@)
    } else if l == "brave"@ {
        Some("brave"@)
    } else if l == "tavily"@ {
        Some("tavily"@)
    } else if l == "searxng"@ || l == "searx"@ {
        Some("searxng"@)
    } else {
        None
    }
}

/// Rust's debug rendering of a string: quoted and escaped.
pub uninterp spec fn debug_quoted(s: Seq<char>) -> Seq<char>;

/// Wraps `format!("{:?}", s)` on a string slice: std's `Debug` for `str`.
#[verifier::external_body]
pub(crate) fn debug_str(s: &str) -> (r: String)
    ensures
        r@ == debug_quoted(s@),
{
    format!("{:?}", s)
}

/// The redacted debug rendering: names the variant and, for SearXNG, the
/// instance URL; a key is never shown, only whether one is set.
pub open spec fn provider_debug(p: Provider) -> Seq<char> {
    match p {
        Provider::Duckduckgo => "Duckduckgo"@,
        Provider::Brave { .. } => "Brave { api_key: <redacted> }"@,
        Provider::Tavily { .. } => "Tavily { api_key: <redacted> }"@,
        Provider::Searxng { base_url, api_key } => "Searxng { base_url: "@ + debug_quoted(base_url@)
            + ", api_key: "@ + (if api_key is Some {
            "<redacted>"@
        } else {
            "None"@
        }) + " }"@,
    }
}

impl Provider {
    /// Stable identifier recorded on the output so a fallback is visible.
    pub fn label(&self) -> (r: &'static str)
        ensures
            r@ == provider_label(*self),
    {
        match self {
            Provider::Duckduckgo => "duckduckgo",
            Provider::Brave { .. } => "brave",
            Provider::Tavily { .. } => "tavily",
            Provider::Searxng { .. } => "searxng",
        }
    }

    /// Parse a provider name with no credential attached.
    pub fn parse_name(s: &str) -> (r: Option<&'static str>)
        ensures
            opt_str_chars(r) == provider_name(s@),
    {
        let v = chars_vec(s);
        let (a, b) = trim_bounds(&v);
        let t = crate::text::string_of_range(&v, a, b);
        let l = to_ascii_lowercase(&chars_vec(t.as_str()));
        if chars_eq_str(&l, "duckduckgo") || chars_eq_str(&l, "ddg") {
            Some("duckduckgo")
        } else if chars_eq_str(&l, "brave") {
            Some("brave")
        } else if chars_eq_str(&l, "tavily") {
            Some("tavily")
        } else if chars_eq_str(&l, "searxng") || chars_eq_str(&l, "searx") {
            Some("searxng")
        } else {
            None
        }
    }

    /// The debug rendering, with every credential redacted: what a derived
    /// `Debug` would print, minus the keys.
    pub fn debug_string(&self) -> (r: String)
        ensures
            r@ == provider_debug(*self),
    {
        match self {
            Provider::Duckduckgo => owned("Duckduckgo"),
            Provider::Brave { .. } => owned("Brave { api_key: <redacted> }"),
            Provider::Tavily { .. } => owned("Tavily { api_key: <redacted> }"),
            Provider::Searxng { base_url, api_key } => {
                let mut s = owned("Searxng { base_url: ");
                let q = debug_str(base_url.as_str());
                push_str(&mut s, q.as_str());
                push_str(&mut s, ", api_key: ");
                if api_key.is_some() {
                    push_str(&mut s, "<redacted>");
                } else {
                    push_str(&mut s, "None");
                }
                push_str(&mut s, " }");
                s
            },
        }
    }

    /// A copy of this provider, credentials included.
    pub fn duplicate(&self) -> (r: Provider)
        ensures
            r == *self,
    {
        match self {
            Provider::Duckduckgo => Provider::Duckduckgo,
            Provider::Brave { api_key } => Provider::Brave { api_key: api_key.clone() },
            Provider::Tavily { api_key } => Provider::Tavily { api_key: api_key.clone() },
            Provider::Searxng { base_url, api_key } => Provider::Searxng {
                base_url: base_url.clone(),
                api_key: match api_key {
                    Some(k) => Some(k.clone()),
                    None => None,
                },
            },
        }
    }
}

/// The string value of the field `key` of the JSON object `item`.
pub open spec fn str_field(item: Seq<char>, key: Seq<char>) -> Option<Seq<char>> {
    match json_field_text(item, key) {
        Some(t) => json_string_value(t),
        None => None,
    }
}

/// The first of `keys` whose field in `item` is a string, and that string.
pub open spec fn first_str(item: Seq<char>, keys: Seq<Seq<char>>) -> Option<Seq<char>>
    decreases keys.len(),
{
    if keys.len() == 0 {
        None
    } else {
        match str_field(item, keys[0]) {
            Some(v) => Some(v),
            None => first_str(item, keys.drop_first()),
        }
    }
}

pub open spec fn or_empty(o: Option<Seq<char>>) -> Seq<char> {
    match o {
        Some(v) => v,
        None => Seq::<char>::empty(),
    }
}

/// One JSON hit read into the results so far: skipped once `max` results
/// are held, or when it has no URL; otherwise a result numbered after the
/// ones before, with its title and its first snippet field compressed.
pub open spec fn json_step(
    acc: Seq<HitV>,
    item: Seq<char>,
    title_key: Seq<char>,
    url_key: Seq<char>,
    snippet_keys: Seq<Seq<char>>,
    max: usize,
) -> Seq<HitV> {
    let url = or_empty(str_field(item, url_key));
    if acc.len() >= max || url.len() == 0 {
        acc
    } else {
        acc.push(
            HitV {
                title: compress_spec(or_empty(str_field(item, title_key))),
                snippet: match first_str(item, snippet_keys) {
                    Some(v) => compress_spec(v),
                    None => Seq::<char>::empty(),
                },
                url,
                ref_index: (acc.len() + 1) as usize,
            },
        )
    }
}

/// The results read from the first `k` JSON hits.
pub open spec fn json_hits(
    items: Seq<Seq<char>>,
    title_key: Seq<char>,
    url_key: Seq<char>,
    snippet_keys: Seq<Seq<char>>,
    max: usize,
    k: int,
) -> Seq<HitV>
    decreases k,
{
    if k <= 0 {
        Seq::<HitV>::empty()
    } else {
        json_step(
            json_hits(items, title_key, url_key, snippet_keys, max, k - 1),
            items[k - 1],
            title_key,
            url_key,
            snippet_keys,
            max,
        )
    }
}

proof fn lemma_json_hits_len(
    items: Seq<Seq<char>>,
    title_key: Seq<char>,
    url_key: Seq<char>,
    snippet_keys: Seq<Seq<char>>,
    max: usize,
    k: int,
)
    requires
        0 <= k,
    ensures
        json_hits(items, title_key, url_key, snippet_keys, max, k).len() <= k,
        json_hits(items, title_key, url_key, snippet_keys, max, k).len() <= max,
    decreases k,
{
    if k > 0 {
        lemma_json_hits_len(items, title_key, url_key, snippet_keys, max, k - 1);
    }
}

/// The characters of each key.
pub open spec fn keys_view(keys: Seq<&str>) -> Seq<Seq<char>> {
    keys.map_values(|k: &str| k@)
}

fn string_field(item: &str, key: &str) -> (r: Option<String>)
    ensures
        crate::text::opt_chars(r) == str_field(item@, key@),
{
    match json_field(item, key) {
        Some(t) => json_string(t.as_str()),
        None => None,
    }
}

/// Turn a provider's JSON hit list (each hit as JSON text) into results,
/// numbering references as they are kept. Fields are read one by one, so a
/// hit with a missing or renamed peripheral field degrades alone.
pub fn results_from_json(
    items: &[String],
    title_key: &str,
    url_key: &str,
    snippet_keys: &[&str],
    max: usize,
) -> (r: Vec<SearchResult>)
    ensures
        hits_view(r@) == json_hits(
            strings_view(items@),
            title_key@,
            url_key@,
            keys_view(snippet_keys@),
            max,
            items@.len() as int,
        ),
{
    let ghost its = strings_view(items@);
    let ghost sks = keys_view(snippet_keys@);
    let mut out: Vec<SearchResult> = Vec::new();
    let mut i: usize = 0;
    while i < items.len()
        invariant
            i <= items@.len(),
            its == strings_view(items@),
            sks == keys_view(snippet_keys@),
            hits_view(out@) == json_hits(its, title_key@, url_key@, sks, max, i as int),
        decreases items.len() - i,
    {
        proof {
            lemma_json_hits_len(its, title_key@, url_key@, sks, max, i as int);
        }
        let ghost acc = hits_view(out@);
        let item = items[i].as_str();
        assert(item@ == its[i as int]);
        if out.len() < max {
            let url = match string_field(item, url_key) {
                Some(u) => u,
                None => String::new(),
            };
            if !url.as_str().is_empty() {
                let title = match string_field(item, title_key) {
                    Some(t) => t,
                    None => String::new(),
                };
                let mut snippet = String::new();
                let mut j: usize = 0;
                assert(sks.skip(0) =~= sks);
                if snippet_keys.len() == 0 {
                    assert(sks.len() == 0);
                }
                while j < snippet_keys.len()
                    invariant_except_break
                        j <= snippet_keys@.len(),
                        first_str(item@, sks) == first_str(item@, sks.skip(j as int)),
                        snippet@.len() == 0,
                    invariant
                        sks == keys_view(snippet_keys@),
                    ensures
                        snippet@ == (match first_str(item@, sks) {
                            Some(v) => compress_spec(v),
                            None => Seq::<char>::empty(),
                        }),
                    decreases snippet_keys.len() - j,
                {
                    proof {
                        assert(sks.skip(j as int).drop_first() =~= sks.skip(j + 1));
                        assert(sks.skip(j as int)[0] == snippet_keys@[j as int]@);
                    }
                    if j + 1 == snippet_keys.len() {
                        assert(sks.skip(j + 1).len() == 0);
                    }
                    match string_field(item, snippet_keys[j]) {
                        Some(v) => {
                            snippet = compress_text(v.as_str());
                            break;
                        },
                        None => {},
                    }
                    j += 1;
                }
                let n = out.len() + 1;
                out.push(SearchResult { title: compress_text(title.as_str()), snippet, url, ref_index: n });
                proof {
                    assert(hits_view(out@) =~= json_step(acc, item@, title_key@, url_key@, sks, max));
                }
            }
        }
        proof {
            assert(hits_view(out@) =~= json_step(acc, item@, title_key@, url_key@, sks, max));
        }
        i += 1;
    }
    proof {
        assert(its.len() == items@.len());
    }
    out
}

/// The JSON texts of the array at `list`, or none when there is no array.
pub open spec fn listed(list: Option<Seq<char>>) -> Seq<Seq<char>> {
    match list {
        Some(t) => match json_items_text(t) {
            Some(v) => v,
            None => Seq::<Seq<char>>::empty(),
        },
        None => Seq::<Seq<char>>::empty(),
    }
}

/// What a provider's response body yields: a body that is not JSON is a
/// failure (blocked), not an empty result; otherwise the hits of its list,
/// and an empty answer when none has a URL.
pub open spec fn parsed_response(
    body: Seq<char>,
    list: Option<Seq<char>>,
    title_key: Seq<char>,
    url_key: Seq<char>,
    snippet_keys: Seq<Seq<char>>,
    max: usize,
) -> (Seq<HitV>, SearchStatus) {
    if !json_is_valid(body) {
        (Seq::<HitV>::empty(), SearchStatus::Blocked)
    } else {
        let items = listed(list);
        let hits = json_hits(items, title_key, url_key, snippet_keys, max, items.len() as int);
        (hits, if hits.len() == 0 {
            SearchStatus::Empty
        } else {
            SearchStatus::Success
        })
    }
}

/// Read a provider's response body, given the JSON text of its hit list.
pub(crate) fn parse_response(
    body: &str,
    list: Option<String>,
    title_key: &str,
    url_key: &str,
    snippet_keys: &[&str],
    max: usize,
) -> (r: (Vec<SearchResult>, SearchStatus))
    ensures
        (hits_view(r.0@), r.1) == parsed_response(
            body@,
            crate::text::opt_chars(list),
            title_key@,
            url_key@,
            keys_view(snippet_keys@),
            max,
        ),
{
    if !json_valid(body) {
        return (Vec::new(), SearchStatus::Blocked);
    }
    let items: Vec<String> = match list {
        Some(t) => match json_items(t.as_str()) {
            Some(v) => v,
            None => Vec::new(),
        },
        None => Vec::new(),
    };
    proof {
        assert(strings_view(items@) =~= listed(crate::text::opt_chars(list)));
    }
    let results = results_from_json(items.as_slice(), title_key, url_key, snippet_keys, max);
    let status = if results.len() == 0 {
        SearchStatus::Empty
    } else {
        SearchStatus::Success
    };
    (results, status)
}

/// Results read from a provider's hits are numbered 1, 2, 3, … in order:
/// a hit skipped for having no URL leaves no gap.
pub proof fn lemma_json_hits_numbered(
    items: Seq<Seq<char>>,
    title_key: Seq<char>,
    url_key: Seq<char>,
    snippet_keys: Seq<Seq<char>>,
    max: usize,
    k: int,
)
    requires
        0 <= k < usize::MAX,
    ensures
        forall|i: int|
            0 <= i < json_hits(items, title_key, url_key, snippet_keys, max, k).len() ==> (#[trigger] json_hits(
                items,
                title_key,
                url_key,
                snippet_keys,
                max,
                k,
            )[i]).ref_index == i + 1,
    decreases k,
{
    if k > 0 {
        lemma_json_hits_numbered(items, title_key, url_key, snippet_keys, max, k - 1);
        lemma_json_hits_len(items, title_key, url_key, snippet_keys, max, k - 1);
        let acc = json_hits(items, title_key, url_key, snippet_keys, max, k - 1);
        let r = json_hits(items, title_key, url_key, snippet_keys, max, k);
        assert forall|i: int| 0 <= i < r.len() implies (#[trigger] r[i]).ref_index == i + 1 by {
            if i < acc.len() {
                assert(r[i] == acc[i]);
            }
        }
    }
}

/// The URL a JSON hit carries in `url_key`, when it has one.
pub open spec fn item_url(item: Seq<char>, url_key: Seq<char>) -> Seq<char> {
    or_empty(str_field(item, url_key))
}

/// Positions of the hits before `k` that carry a URL.
pub open spec fn url_positions(items: Seq<Seq<char>>, url_key: Seq<char>, k: int) -> Seq<int>
    decreases k,
{
    if k <= 0 {
        Seq::empty()
    } else if item_url(items[k - 1], url_key).len() > 0 {
        url_positions(items, url_key, k - 1).push(k - 1)
    } else {
        url_positions(items, url_key, k - 1)
    }
}

/// Result `h` is what the JSON hit `item` says: its URL, its title
/// compressed, and its first snippet field compressed.
pub open spec fn result_of_item(
    h: HitV,
    item: Seq<char>,
    title_key: Seq<char>,
    url_key: Seq<char>,
    snippet_keys: Seq<Seq<char>>,
) -> bool {
    &&& h.url == item_url(item, url_key)
    &&& h.title == compress_spec(or_empty(str_field(item, title_key)))
    &&& h.snippet == match first_str(item, snippet_keys) {
        Some(v) => compress_spec(v),
        None => Seq::<char>::empty(),
    }
}

/// Provider law: the results of a JSON answer are its hits that carry a
/// URL, in the answer's order, as many as `max` allows — no hit is skipped
/// but for a missing URL, none is reordered, and each result holds its own
/// hit's URL, title and snippet.
pub proof fn lemma_json_hits_are_the_items(
    items: Seq<Seq<char>>,
    title_key: Seq<char>,
    url_key: Seq<char>,
    snippet_keys: Seq<Seq<char>>,
    max: usize,
    k: int,
)
    requires
        0 <= k <= items.len(),
    ensures
        json_hits(items, title_key, url_key, snippet_keys, max, k).len() == if url_positions(items, url_key, k).len()
            <= max {
            url_positions(items, url_key, k).len() as int
        } else {
            max as int
        },
        forall|i: int, j: int|
            0 <= i < j < url_positions(items, url_key, k).len() ==> #[trigger] url_positions(items, url_key, k)[i]
                < #[trigger] url_positions(items, url_key, k)[j],
        forall|i: int|
            0 <= i < url_positions(items, url_key, k).len() ==> 0 <= #[trigger] url_positions(items, url_key, k)[i] < k,
        forall|i: int|
            0 <= i < json_hits(items, title_key, url_key, snippet_keys, max, k).len() ==> result_of_item(
                #[trigger] json_hits(items, title_key, url_key, snippet_keys, max, k)[i],
                items[url_positions(items, url_key, k)[i]],
                title_key,
                url_key,
                snippet_keys,
            ),
    decreases k,
{
    if k > 0 {
        lemma_json_hits_are_the_items(items, title_key, url_key, snippet_keys, max, k - 1);
        let acc = json_hits(items, title_key, url_key, snippet_keys, max, k - 1);
        let r = json_hits(items, title_key, url_key, snippet_keys, max, k);
        let ps = url_positions(items, url_key, k - 1);
        let q = url_positions(items, url_key, k);
        if item_url(items[k - 1], url_key).len() > 0 {
            assert(q == ps.push(k - 1));
            assert forall|i: int, j: int| 0 <= i < j < q.len() implies #[trigger] q[i] < #[trigger] q[j] by {
                assert(q[i] == ps[i]);
                if j < ps.len() {
                    assert(q[j] == ps[j]);
                }
            }
            assert forall|i: int| 0 <= i < q.len() implies 0 <= #[trigger] q[i] < k by {
                if i < ps.len() {
                    assert(q[i] == ps[i]);
                }
            }
        } else {
            assert(q == ps);
        }
        assert forall|i: int| 0 <= i < r.len() implies result_of_item(
            #[trigger] r[i],
            items[q[i]],
            title_key,
            url_key,
            snippet_keys,
        ) by {
            if i < acc.len() {
                assert(r[i] == acc[i]);
                assert(result_of_item(acc[i], items[ps[i]], title_key, url_key, snippet_keys));
                if item_url(items[k - 1], url_key).len() > 0 {
                    assert(q[i] == ps[i]);
                }
            } else {
                assert(q[i] == k - 1);
            }
        }
    }
}

/// Two providers that differ at most in the keys they hold (SearXNG's
/// instance, and whether it has a key, being the same).
pub open spec fn same_but_keys(p: Provider, q: Provider) -> bool {
    match (p, q) {
        (Provider::Duckduckgo, Provider::Duckduckgo) => true,
        (Provider::Brave { .. }, Provider::Brave { .. }) => true,
        (Provider::Tavily { .. }, Provider::Tavily { .. }) => true,
        (Provider::Searxng { base_url: b1, api_key: k1 }, Provider::Searxng { base_url: b2, api_key: k2 }) => b1@
            == b2@ && (k1 is Some) == (k2 is Some),
        _ => false,
    }
}

/// The debug rendering never carries a key: providers that differ only in
/// their keys render alike.
pub proof fn lemma_debug_hides_keys(p: Provider, q: Provider)
    requires
        same_but_keys(p, q),
    ensures
        provider_debug(p) == provider_debug(q),
{
}

} // verus!
