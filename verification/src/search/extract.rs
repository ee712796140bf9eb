//! Reading DuckDuckGo Lite's results page: its result links and snippets,
//! the real destination behind each redirect link, and whether the page is a
//! results page at all or a bot challenge.

use vstd::prelude::*;

use crate::compress::{compress_spec, compress_text};
use crate::convert::links::{parse_url, url_serialized};
use crate::dom::{
    attr_value, collect_text, element_text, has_class, matches_sel, node_attr, node_name,
    parse_html, parsed_nodes, subtree_end, NodeKind, RawNode, Sel,
};
use crate::page::{contains_run, has_run, starts};
use crate::text::{chars_vec, lower_seq, owned, push_str, str_eq, to_ascii_lowercase, trim, trim_str};
use super::types::{SearchResult, SearchStatus};

verus! {

/// The decoded query pairs of a URL, in order, as the url crate parses them;
/// `None` when the text is not an absolute URL.
pub uninterp spec fn url_query_pairs(s: Seq<char>) -> Option<Seq<(Seq<char>, Seq<char>)>>;

/// The characters of each pair of strings.
pub open spec fn pairs_view(v: Seq<(String, String)>) -> Seq<(Seq<char>, Seq<char>)> {
    v.map_values(|p: (String, String)| (p.0@, p.1@))
}

/// Wraps `url::Url::parse` followed by `Url::query_pairs`, each pair decoded
/// into owned strings. The contract claims only that the result depends on
/// `s` alone.
#[verifier::external_body]
fn query_pairs(s: &str) -> (r: Option<Vec<(String, String)>>)
    ensures
        match r {
            Some(v) => url_query_pairs(s@) == Some(pairs_view(v@)),
            None => url_query_pairs(s@) is None,
        },
{
    url::Url::parse(s).ok().map(|u| u.query_pairs().map(|(k, v)| (k.into_owned(), v.into_owned())).collect())
}

/// The value of the first pair whose key is `key`.
pub open spec fn first_value(ps: Seq<(Seq<char>, Seq<char>)>, key: Seq<char>) -> Option<Seq<char>>
    decreases ps.len(),
{
    if ps.len() == 0 {
        None
    } else if ps[0].0 == key {
        Some(ps[0].1)
    } else {
        first_value(ps.drop_first(), key)
    }
}

/// A trimmed href, with `https:` in front when it is protocol-relative.
pub open spec fn absolute_href(href: Seq<char>) -> Seq<char> {
    let h = trim(href);
    if starts(h, "//"@) {
        "https:"@ + h
    } else {
        h
    }
}

/// The destination of a result link: empty for an empty href; a
/// protocol-relative href gets `https:`; a DuckDuckGo redirect yields its
/// `uddg` parameter; any other URL is given as the url crate writes it; text
/// that does not parse as a URL is kept as it is.
pub open spec fn result_url(href: Seq<char>) -> Seq<char> {
    let h = trim(href);
    if h.len() == 0 {
        h
    } else {
        let a = absolute_href(href);
        match url_query_pairs(a) {
            None => a,
            Some(ps) => match first_value(ps, "uddg"@) {
                Some(v) => v,
                None => match url_serialized(a) {
                    Some(u) => u,
                    None => a,
                },
            },
        }
    }
}

/// Resolve the real destination URL from a DuckDuckGo Lite result href.
///
/// DuckDuckGo Lite wraps targets in a redirect such as
/// `//duckduckgo.com/l/?uddg=<percent-encoded-url>&rut=…`; the `uddg`
/// parameter is pulled back out, already percent-decoded.
pub fn resolve_result_url(href: &str) -> (r: String)
    ensures
        r@ == result_url(href@),
{
    let h = trim_str(href);
    let v = chars_vec(h.as_str());
    if v.len() == 0 {
        return h;
    }
    let absolute = if v.len() >= 2 && v[0] == '/' && v[1] == '/' {
        let mut a = owned("https:");
        push_str(&mut a, h.as_str());
        proof {
            reveal_strlit("https:");
            reveal_strlit("//");
            assert(h@.take(2) =~= "//"@);
        }
        a
    } else {
        proof {
            reveal_strlit("//");
            if 2 <= h@.len() {
                if h@.take(2) == "//"@ {
                    assert(h@[0] == h@.take(2)[0]);
                    assert(h@[1] == h@.take(2)[1]);
                }
            }
        }
        h
    };
    let pairs = match query_pairs(absolute.as_str()) {
        None => {
            return absolute;
        },
        Some(p) => p,
    };
    let mut i: usize = 0;
    assert(pairs_view(pairs@).skip(0) =~= pairs_view(pairs@));
    while i < pairs.len()
        invariant
            i <= pairs@.len(),
            trim(href@).len() > 0,
            absolute@ == absolute_href(href@),
            url_query_pairs(absolute@) == Some(pairs_view(pairs@)),
            first_value(pairs_view(pairs@), "uddg"@) == first_value(
                pairs_view(pairs@).skip(i as int),
                "uddg"@,
            ),
        decreases pairs.len() - i,
    {
        proof {
            assert(pairs_view(pairs@).skip(i as int).drop_first() =~= pairs_view(pairs@).skip(i + 1));
            assert(pairs_view(pairs@).skip(i as int)[0] == (pairs@[i as int].0@, pairs@[i as int].1@));
        }
        if str_eq(pairs[i].0.as_str(), "uddg") {
            proof {
                reveal_strlit("uddg");
                assert(first_value(pairs_view(pairs@).skip(i as int), "uddg"@) == Some(pairs@[i as int].1@));
            }
            return owned(pairs[i].1.as_str());
        }
        i += 1;
    }
    match parse_url(absolute.as_str()) {
        Some(u) => u,
        None => absolute,
    }
}

/// An element listing the class `c`.
pub open spec fn classed(n: RawNode, c: Seq<char>) -> bool {
    node_attr(n, "class"@) matches Some(v) && has_class(v, c)
}

/// A result link: `a.result-link` or `a.result__a`.
pub open spec fn is_result_link(n: RawNode) -> bool {
    node_name(n) == Some("a"@) && (classed(n, "result-link"@) || classed(n, "result__a"@))
}

/// A result snippet: `.result-snippet` or `.result__snippet`.
pub open spec fn is_result_snippet(n: RawNode) -> bool {
    classed(n, "result-snippet"@) || classed(n, "result__snippet"@)
}

/// What a hit holds, as plain values.
pub struct HitV {
    pub title: Seq<char>,
    pub snippet: Seq<char>,
    pub url: Seq<char>,
    pub ref_index: usize,
}

pub open spec fn hit_view(r: SearchResult) -> HitV {
    HitV { title: r.title@, snippet: r.snippet@, url: r.url@, ref_index: r.ref_index }
}

pub open spec fn hits_view(rs: Seq<SearchResult>) -> Seq<HitV> {
    rs.map_values(|r: SearchResult| hit_view(r))
}

/// One node of the page read into the hits so far. A result link (an `a`
/// among the selected parts) starts a new hit numbered after the ones
/// before, unless both its text and its destination are empty; any other
/// selected part is a snippet, which belongs to the last hit when that hit
/// has none yet and is dropped otherwise.
pub open spec fn ddg_step(acc: Seq<HitV>, s: Seq<RawNode>, j: int) -> Seq<HitV> {
    let n = s[j];
    if !(is_result_link(n) || is_result_snippet(n)) {
        acc
    } else if node_name(n) == Some("a"@) {
        let title = compress_spec(element_text(s, j));
        let url = result_url(
            match node_attr(n, "href"@) {
                Some(h) => h,
                None => Seq::<char>::empty(),
            },
        );
        if title.len() == 0 && url.len() == 0 {
            acc
        } else {
            acc.push(HitV { title, snippet: Seq::<char>::empty(), url, ref_index: (acc.len() + 1) as usize })
        }
    } else if acc.len() > 0 && acc.last().snippet.len() == 0 {
        acc.update(
            acc.len() - 1,
            HitV { snippet: compress_spec(element_text(s, j)), ..acc.last() },
        )
    } else {
        acc
    }
}

/// The hits read from the first `k` nodes, in document order.
pub open spec fn ddg_hits(s: Seq<RawNode>, k: int) -> Seq<HitV>
    decreases k,
{
    if k <= 0 {
        Seq::<HitV>::empty()
    } else {
        ddg_step(ddg_hits(s, k - 1), s, k - 1)
    }
}

/// The hits of a DuckDuckGo Lite page, at most `max` of them.
pub open spec fn ddg_parsed(html: Seq<char>, max: usize) -> Seq<HitV> {
    let s = parsed_nodes(html);
    let all = ddg_hits(s, s.len() as int);
    if all.len() <= max {
        all
    } else {
        all.take(max as int)
    }
}

proof fn lemma_ddg_hits_len(s: Seq<RawNode>, k: int)
    requires
        0 <= k,
    ensures
        ddg_hits(s, k).len() <= k,
    decreases k,
{
    if k > 0 {
        lemma_ddg_hits_len(s, k - 1);
    }
}

fn sel_class(tag: Option<&'static str>, class: &'static str) -> (r: Sel)
    ensures
        r.tag == tag,
        r.attr is None,
        r.value is None,
        r.class == Some(class),
{
    Sel { tag, attr: None, value: None, class: Some(class) }
}

/// Parse a DuckDuckGo Lite results page.
///
/// Links and snippets are read in one pass in document order, and a snippet
/// attaches to the most recent link, so a result without a snippet row never
/// shifts the following snippets onto the wrong URLs.
pub fn parse_ddg_lite(html: &str, max_results: usize) -> (r: Vec<SearchResult>)
    ensures
        hits_view(r@) == ddg_parsed(html@, max_results),
{
    let nodes = parse_html(html);
    let link1 = sel_class(Some("a"), "result-link");
    let link2 = sel_class(Some("a"), "result__a");
    let snip1 = sel_class(None, "result-snippet");
    let snip2 = sel_class(None, "result__snippet");
    let mut results: Vec<SearchResult> = Vec::new();
    let mut k: usize = 0;
    while k < nodes.len()
        invariant
            k <= nodes@.len(),
            nodes@ == parsed_nodes(html@),
            link1.tag == Some("a") && link1.attr is None && link1.value is None && link1.class == Some("result-link"),
            link2.tag == Some("a") && link2.attr is None && link2.value is None && link2.class == Some("result__a"),
            snip1.tag is None && snip1.attr is None && snip1.value is None && snip1.class == Some("result-snippet"),
            snip2.tag is None && snip2.attr is None && snip2.value is None && snip2.class == Some("result__snippet"),
            hits_view(results@) == ddg_hits(nodes@, k as int),
        decreases nodes.len() - k,
    {
        proof {
            lemma_ddg_hits_len(nodes@, k as int);
        }
        let ghost acc = hits_view(results@);
        let is_link = matches_sel(&nodes, k, &link1) || matches_sel(&nodes, k, &link2);
        let is_snip = matches_sel(&nodes, k, &snip1) || matches_sel(&nodes, k, &snip2);
        proof {
            assert(is_link == is_result_link(nodes@[k as int]));
            assert(is_snip == is_result_snippet(nodes@[k as int]));
        }
        if is_link || is_snip {
            let (is_a, href) = match &nodes[k].kind {
                NodeKind::Element(name, attrs) => (str_eq(name.as_str(), "a"), attr_value(attrs, "href")),
                _ => (false, None),
            };
            let end = subtree_end(&nodes, k);
            let text = collect_text(&nodes, k + 1, end);
            if is_a {
                let title = compress_text(text.as_str());
                let url = match href {
                    Some(h) => resolve_result_url(h),
                    None => resolve_result_url(""),
                };
                proof {
                    reveal_strlit("");
                }
                proof {
                    let nd = nodes@[k as int];
                    assert(node_name(nd) == Some("a"@));
                    assert(title@ == compress_spec(element_text(nodes@, k as int)));
                    assert(url@ == result_url(
                        match node_attr(nd, "href"@) {
                            Some(h) => h,
                            None => Seq::<char>::empty(),
                        },
                    ));
                }
                if !(title.as_str().is_empty() && url.as_str().is_empty()) {
                    let n = results.len() + 1;
                    results.push(SearchResult { title, snippet: String::new(), url, ref_index: n });
                    proof {
                        assert(hits_view(results@) =~= ddg_step(acc, nodes@, k as int));
                    }
                }
            } else if results.len() > 0 && results[results.len() - 1].snippet.as_str().is_empty() {
                let mut last = results.pop().unwrap();
                last.snippet = compress_text(text.as_str());
                results.push(last);
                proof {
                    assert(hits_view(results@) =~= ddg_step(acc, nodes@, k as int));
                }
            }
        }
        proof {
            assert(ddg_hits(nodes@, k + 1) == ddg_step(ddg_hits(nodes@, k as int), nodes@, k as int));
            assert(hits_view(results@) =~= ddg_step(acc, nodes@, k as int));
        }
        k += 1;
    }
    let ghost all = hits_view(results@);
    results.truncate(max_results);
    proof {
        if all.len() > max_results {
            assert(hits_view(results@) =~= all.take(max_results as int));
        } else {
            assert(hits_view(results@) =~= all);
        }
    }
    results
}

/// Phrases DuckDuckGo serves on its challenge page, which comes back with a
/// success status.
pub open spec fn challenge_seen(lower: Seq<char>) -> bool {
    has_run(lower, "bots use duckduckgo"@) || has_run(lower, "/anomaly"@) || has_run(
        lower,
        "anomaly.js"@,
    ) || has_run(lower, "unusual traffic"@) || has_run(lower, "are you a robot"@)
}

/// An element marking a results page: `.result-count`, `.no-results` or
/// `.results`.
pub open spec fn results_marker(n: RawNode) -> bool {
    classed(n, "result-count"@) || classed(n, "no-results"@) || classed(n, "results"@)
}

/// How a fetched results page is classified: any parsed result is success; a
/// challenge phrase means blocked; a page that is structurally a results
/// page but holds none is a real empty answer; anything else is an
/// unrecognized page, and so blocked.
pub open spec fn page_status(html: Seq<char>, result_count: usize) -> SearchStatus {
    if result_count > 0 {
        SearchStatus::Success
    } else if challenge_seen(lower_seq(html)) {
        SearchStatus::Blocked
    } else if exists|k: int| 0 <= k < parsed_nodes(html).len() && #[trigger] results_marker(parsed_nodes(html)[k]) {
        SearchStatus::Empty
    } else {
        SearchStatus::Blocked
    }
}

/// Page-status law: a page with parsed results is a success; a page without
/// any that carries a challenge phrase (in any case) is blocked; one without
/// results or challenge phrases that has an element of class
/// `result-count`, `no-results` or `results` is a real empty answer; and
/// one with none of these is an unrecognized page, so blocked.
pub proof fn lemma_page_status_law(html: Seq<char>, count: usize, k: int)
    ensures
        count > 0 ==> page_status(html, count) == SearchStatus::Success,
        count == 0 && (has_run(lower_seq(html), "bots use duckduckgo"@) || has_run(lower_seq(html), "/anomaly"@)
            || has_run(lower_seq(html), "anomaly.js"@) || has_run(lower_seq(html), "unusual traffic"@) || has_run(
            lower_seq(html),
            "are you a robot"@,
        )) ==> page_status(html, count) == SearchStatus::Blocked,
        count == 0 && !has_run(lower_seq(html), "bots use duckduckgo"@) && !has_run(lower_seq(html), "/anomaly"@)
            && !has_run(lower_seq(html), "anomaly.js"@) && !has_run(lower_seq(html), "unusual traffic"@) && !has_run(
            lower_seq(html),
            "are you a robot"@,
        ) && 0 <= k < parsed_nodes(html).len() && (classed(parsed_nodes(html)[k], "result-count"@) || classed(
            parsed_nodes(html)[k],
            "no-results"@,
        ) || classed(parsed_nodes(html)[k], "results"@)) ==> page_status(html, count) == SearchStatus::Empty,
        count == 0 && !has_run(lower_seq(html), "bots use duckduckgo"@) && !has_run(lower_seq(html), "/anomaly"@)
            && !has_run(lower_seq(html), "anomaly.js"@) && !has_run(lower_seq(html), "unusual traffic"@) && !has_run(
            lower_seq(html),
            "are you a robot"@,
        ) && (forall|m: int|
            0 <= m < parsed_nodes(html).len() ==> !classed(#[trigger] parsed_nodes(html)[m], "result-count"@)
                && !classed(parsed_nodes(html)[m], "no-results"@) && !classed(parsed_nodes(html)[m], "results"@))
            ==> page_status(html, count) == SearchStatus::Blocked,
{
    if 0 <= k < parsed_nodes(html).len() {
        assert(results_marker(parsed_nodes(html)[k]) == (classed(parsed_nodes(html)[k], "result-count"@) || classed(
            parsed_nodes(html)[k],
            "no-results"@,
        ) || classed(parsed_nodes(html)[k], "results"@)));
    }
}

/// Classify a fetched results page. A challenge page comes back as a success
/// with no result rows; it is reported as blocked rather than as a search
/// with no hits.
pub fn classify_page(html: &str, result_count: usize) -> (r: SearchStatus)
    ensures
        r == page_status(html@, result_count),
{
    if result_count > 0 {
        return SearchStatus::Success;
    }
    let lower = to_ascii_lowercase(&chars_vec(html));
    if contains_run(&lower, "bots use duckduckgo") || contains_run(&lower, "/anomaly") || contains_run(
        &lower,
        "anomaly.js",
    ) || contains_run(&lower, "unusual traffic") || contains_run(&lower, "are you a robot") {
        return SearchStatus::Blocked;
    }
    let nodes = parse_html(html);
    let m1 = sel_class(None, "result-count");
    let m2 = sel_class(None, "no-results");
    let m3 = sel_class(None, "results");
    let mut k: usize = 0;
    while k < nodes.len()
        invariant
            k <= nodes@.len(),
            nodes@ == parsed_nodes(html@),
            m1.tag is None && m1.attr is None && m1.value is None && m1.class == Some("result-count"),
            m2.tag is None && m2.attr is None && m2.value is None && m2.class == Some("no-results"),
            m3.tag is None && m3.attr is None && m3.value is None && m3.class == Some("results"),
            forall|j: int| 0 <= j < k ==> !#[trigger] results_marker(nodes@[j]),
            !challenge_seen(lower_seq(html@)),
            result_count == 0,
        decreases nodes.len() - k,
    {
        if matches_sel(&nodes, k, &m1) || matches_sel(&nodes, k, &m2) || matches_sel(&nodes, k, &m3) {
            proof {
                assert(results_marker(parsed_nodes(html@)[k as int]));
            }
            return SearchStatus::Empty;
        }
        k += 1;
    }
    SearchStatus::Blocked
}

/// The hits of a results page are numbered 1, 2, 3, … in order: a result
/// without a snippet, or a skipped link, leaves no gap and shifts nothing.
pub proof fn lemma_ddg_hits_numbered(s: Seq<RawNode>, k: int)
    requires
        0 <= k < usize::MAX,
    ensures
        forall|i: int| 0 <= i < ddg_hits(s, k).len() ==> (#[trigger] ddg_hits(s, k)[i]).ref_index == i + 1,
    decreases k,
{
    if k > 0 {
        lemma_ddg_hits_numbered(s, k - 1);
        lemma_ddg_hits_len(s, k - 1);
        let acc = ddg_hits(s, k - 1);
        let r = ddg_hits(s, k);
        assert forall|i: int| 0 <= i < r.len() implies (#[trigger] r[i]).ref_index == i + 1 by {
            if i < acc.len() {
                assert(r[i].ref_index == acc[i].ref_index);
            }
        }
    }
}

/// The title a result link gives its hit.
pub open spec fn link_title(s: Seq<RawNode>, p: int) -> Seq<char> {
    compress_spec(element_text(s, p))
}

/// The destination a result link gives its hit.
pub open spec fn link_url(n: RawNode) -> Seq<char> {
    result_url(
        match node_attr(n, "href"@) {
            Some(h) => h,
            None => Seq::<char>::empty(),
        },
    )
}

/// Node `p` is a result link with a title or a destination: it opens a hit.
pub open spec fn opens_hit(s: Seq<RawNode>, p: int) -> bool {
    &&& is_result_link(s[p]) || is_result_snippet(s[p])
    &&& node_name(s[p]) == Some("a"@)
    &&& !(link_title(s, p).len() == 0 && link_url(s[p]).len() == 0)
}

/// Node `p` is a snippet row with some text.
pub open spec fn snippet_row(s: Seq<RawNode>, p: int) -> bool {
    &&& is_result_link(s[p]) || is_result_snippet(s[p])
    &&& node_name(s[p]) != Some("a"@)
    &&& compress_spec(element_text(s, p)).len() > 0
}

/// Positions of the nodes before `k` that open a hit, in document order.
pub open spec fn hit_positions(s: Seq<RawNode>, k: int) -> Seq<int>
    decreases k,
{
    if k <= 0 {
        Seq::empty()
    } else if opens_hit(s, k - 1) {
        hit_positions(s, k - 1).push(k - 1)
    } else {
        hit_positions(s, k - 1)
    }
}

/// The first snippet row in `a..b`.
pub open spec fn first_snippet_row(s: Seq<RawNode>, a: int, b: int) -> Option<int>
    decreases b - a,
{
    if b <= a {
        None
    } else {
        match first_snippet_row(s, a, b - 1) {
            Some(m) => Some(m),
            None => if snippet_row(s, b - 1) {
                Some(b - 1)
            } else {
                None
            },
        }
    }
}

/// The snippet of the rows in `a..b`: the text of the first row that has
/// some, or nothing.
pub open spec fn snippet_between(s: Seq<RawNode>, a: int, b: int) -> Seq<char> {
    match first_snippet_row(s, a, b) {
        Some(m) => compress_spec(element_text(s, m)),
        None => Seq::<char>::empty(),
    }
}

proof fn lemma_first_snippet_row_in(s: Seq<RawNode>, a: int, b: int)
    ensures
        first_snippet_row(s, a, b) matches Some(m) ==> a <= m < b && snippet_row(s, m),
    decreases b - a,
{
    if b > a {
        lemma_first_snippet_row_in(s, a, b - 1);
    }
}

proof fn lemma_hit_positions(s: Seq<RawNode>, k: int)
    requires
        0 <= k,
    ensures
        forall|i: int| 0 <= i < hit_positions(s, k).len() ==> 0 <= #[trigger] hit_positions(s, k)[i] < k,
        forall|i: int, j: int|
            0 <= i < j < hit_positions(s, k).len() ==> #[trigger] hit_positions(s, k)[i] < #[trigger] hit_positions(
                s,
                k,
            )[j],
    decreases k,
{
    if k > 0 {
        lemma_hit_positions(s, k - 1);
        let ps = hit_positions(s, k - 1);
        let q = hit_positions(s, k);
        if opens_hit(s, k - 1) {
            assert(q == ps.push(k - 1));
            assert forall|i: int| 0 <= i < q.len() implies 0 <= #[trigger] q[i] < k by {
                if i < ps.len() {
                    assert(q[i] == ps[i]);
                }
            }
            assert forall|i: int, j: int| 0 <= i < j < q.len() implies #[trigger] q[i] < #[trigger] q[j] by {
                assert(q[i] == ps[i]);
                if j < ps.len() {
                    assert(q[j] == ps[j]);
                }
            }
        } else {
            assert(q == ps);
        }
    }
}

/// Where hit `i` of the first `k` nodes ends: at the next hit's link, or at
/// `k`.
pub open spec fn hit_end(s: Seq<RawNode>, k: int, i: int) -> int {
    if i + 1 < hit_positions(s, k).len() {
        hit_positions(s, k)[i + 1]
    } else {
        k
    }
}

/// Hit `i` of the first `k` nodes is what its link gives: the link opens a
/// hit, and the hit has its title and destination and the snippet between
/// it and the next link.
pub open spec fn hit_of_link(s: Seq<RawNode>, k: int, i: int, h: HitV) -> bool {
    let p = hit_positions(s, k)[i];
    &&& opens_hit(s, p)
    &&& h.title == link_title(s, p)
    &&& h.url == link_url(s[p])
    &&& h.snippet == snippet_between(s, p + 1, hit_end(s, k, i))
}

/// Result-page law: the hits of a page are its result links that carry a
/// title or a destination, in document order, one hit each — with that
/// link's title and destination — and each hit's snippet is the text of the
/// first non-empty snippet row between its link and the next one, or
/// nothing when there is none. A link without a snippet row never takes
/// another link's snippet, and no snippet is shared or shifted.
pub proof fn lemma_ddg_hits_are_the_links(s: Seq<RawNode>, k: int)
    requires
        0 <= k <= s.len(),
    ensures
        ddg_hits(s, k).len() == hit_positions(s, k).len(),
        forall|i: int| 0 <= i < hit_positions(s, k).len() ==> 0 <= #[trigger] hit_positions(s, k)[i] < k,
        forall|i: int, j: int|
            0 <= i < j < hit_positions(s, k).len() ==> #[trigger] hit_positions(s, k)[i] < #[trigger] hit_positions(
                s,
                k,
            )[j],
        forall|i: int| 0 <= i < ddg_hits(s, k).len() ==> hit_of_link(s, k, i, #[trigger] ddg_hits(s, k)[i]),
    decreases k,
{
    lemma_hit_positions(s, k);
    if k > 0 {
        lemma_ddg_hits_are_the_links(s, k - 1);
        lemma_hit_positions(s, k - 1);
        let acc = ddg_hits(s, k - 1);
        let ps = hit_positions(s, k - 1);
        let r = ddg_hits(s, k);
        let q = hit_positions(s, k);
        let j = k - 1;
        let n = s[j];
        if acc.len() > 0 {
            let l = acc.len() - 1;
            let p = ps[l];
            assert(hit_end(s, k - 1, l) == k - 1);
            lemma_first_snippet_row_in(s, p + 1, k - 1);
        }
        if !(is_result_link(n) || is_result_snippet(n)) {
            assert(!opens_hit(s, j) && !snippet_row(s, j));
            assert(q == ps);
            assert forall|i: int| 0 <= i < r.len() implies hit_of_link(s, k, i, #[trigger] r[i]) by {
                assert(r[i] == acc[i]);
                if i + 1 == r.len() {
                    assert(first_snippet_row(s, q[i] + 1, k) == first_snippet_row(s, q[i] + 1, k - 1));
                }
            }
        } else if node_name(n) == Some("a"@) {
            assert(!snippet_row(s, j));
            if opens_hit(s, j) {
                assert(q == ps.push(j));
                assert forall|i: int| 0 <= i < r.len() implies hit_of_link(s, k, i, #[trigger] r[i]) by {
                    if i < acc.len() {
                        assert(r[i] == acc[i]);
                        assert(q[i] == ps[i]);
                        if i + 1 == acc.len() {
                            assert(hit_end(s, k, i) == j);
                        } else {
                            assert(hit_end(s, k, i) == hit_end(s, k - 1, i));
                        }
                    } else {
                        assert(q[i] == j);
                        assert(first_snippet_row(s, j + 1, k) is None);
                    }
                }
            } else {
                assert(q == ps);
                assert forall|i: int| 0 <= i < r.len() implies hit_of_link(s, k, i, #[trigger] r[i]) by {
                    assert(r[i] == acc[i]);
                    if i + 1 == r.len() {
                        assert(first_snippet_row(s, q[i] + 1, k) == first_snippet_row(s, q[i] + 1, k - 1));
                    }
                }
            }
        } else {
            assert(!opens_hit(s, j));
            assert(q == ps);
            assert forall|i: int| 0 <= i < r.len() implies hit_of_link(s, k, i, #[trigger] r[i]) by {
                assert(hit_of_link(s, k - 1, i, acc[i]));
                let p = q[i];
                if i + 1 < r.len() {
                    assert(r[i] == acc[i]);
                    assert(hit_end(s, k, i) == hit_end(s, k - 1, i));
                } else {
                    assert(hit_end(s, k - 1, i) == k - 1);
                    assert(hit_end(s, k, i) == k);
                    lemma_first_snippet_row_in(s, p + 1, k - 1);
                    let t = compress_spec(element_text(s, j));
                    if acc.last().snippet.len() == 0 {
                        assert(first_snippet_row(s, p + 1, k - 1) is None) by {
                            if let Some(m) = first_snippet_row(s, p + 1, k - 1) {
                                assert(snippet_row(s, m));
                            }
                        }
                        assert(r[i] == HitV { snippet: t, ..acc.last() });
                        if snippet_row(s, j) {
                            assert(first_snippet_row(s, p + 1, k) == Some(j));
                        } else {
                            assert(t.len() == 0);
                            assert(first_snippet_row(s, p + 1, k) is None);
                            assert(t =~= acc.last().snippet);
                        }
                    } else {
                        assert(r[i] == acc[i]);
                        assert(first_snippet_row(s, p + 1, k - 1) is Some);
                        assert(first_snippet_row(s, p + 1, k) == first_snippet_row(s, p + 1, k - 1));
                    }
                }
            }
        }
    }
}

} // verus!
