use webtools::search::extract::{classify_page, parse_ddg_lite, resolve_result_url};
use webtools::search::providers::ddg::{encode, lite_url};
use webtools::search::providers::{brave, results_from_json, searxng, tavily, Provider};
use webtools::search::types::{SearchOutput, SearchStatus};
use webtools::search::{
    build_output, build_output_from_ddg, build_refs, format_results, render_output, select_outcome,
    status_note,
};

// --- DuckDuckGo Lite pages ---------------------------------------------------

#[test]
fn snippet_stays_with_its_own_link() {
    let html = r#"<table>
        <tr><td><a href="https://a.test/1" class="result-link">Alpha</a></td></tr>
        <tr><td class="result-snippet">About ALPHA.</td></tr>
        <tr><td><a href="https://b.test/2" class="result-link">Bravo</a></td></tr>
        <tr><td><a href="https://c.test/3" class="result-link">Charlie</a></td></tr>
        <tr><td class="result-snippet">About CHARLIE.</td></tr>
    </table>"#;
    let results = parse_ddg_lite(html, 10);
    assert_eq!(results.len(), 3);
    assert_eq!(results[0].snippet, "About ALPHA.");
    assert_eq!(results[1].snippet, "", "Bravo must not inherit a snippet");
    assert_eq!(results[2].snippet, "About CHARLIE.");
}

#[test]
fn a_stray_leading_snippet_is_ignored() {
    let html = r#"<table>
        <tr><td class="result-snippet">Orphan.</td></tr>
        <tr><td><a href="https://a.test/1" class="result-link">Alpha</a></td></tr>
        <tr><td class="result-snippet">About ALPHA.</td></tr>
    </table>"#;
    let results = parse_ddg_lite(html, 10);
    assert_eq!(results.len(), 1);
    assert_eq!(results[0].snippet, "About ALPHA.");
}

#[test]
fn alternate_class_names_are_recognized() {
    let html = r#"<a href="https://a.test/1" class="result__a">Alpha</a>
                  <div class="result__snippet">About ALPHA.</div>"#;
    let results = parse_ddg_lite(html, 10);
    assert_eq!(results.len(), 1);
    assert_eq!(results[0].snippet, "About ALPHA.");
}

#[test]
fn challenge_page_is_blocked_not_empty() {
    let html = "<html><body><h1>Unfortunately, bots use DuckDuckGo too.</h1>\
                <form action=\"/anomaly\"></form></body></html>";
    assert!(parse_ddg_lite(html, 10).is_empty());
    assert_eq!(classify_page(html, 0), SearchStatus::Blocked);
}

#[test]
fn genuine_no_results_page_is_empty() {
    let html = "<html><body><table><tr><td class=\"result-count\">No results.</td>\
                </tr></table></body></html>";
    assert_eq!(classify_page(html, 0), SearchStatus::Empty);
}

#[test]
fn unrecognized_markup_is_blocked() {
    assert_eq!(
        classify_page("<html><body>something else entirely</body></html>", 0),
        SearchStatus::Blocked
    );
}

#[test]
fn results_present_is_always_ok() {
    assert_eq!(classify_page("<html>whatever</html>", 3), SearchStatus::Success);
}

#[test]
fn test_resolve_uddg_redirect() {
    let href =
        "//duckduckgo.com/l/?uddg=https%3A%2F%2Freact.dev%2Fblog%2F2024%2F12%2F01%2Freact-19&rut=x";
    assert_eq!(resolve_result_url(href), "https://react.dev/blog/2024/12/01/react-19");
}

#[test]
fn test_resolve_protocol_relative() {
    assert_eq!(resolve_result_url("//example.com/path"), "https://example.com/path");
}

#[test]
fn test_resolve_absolute_passthrough() {
    assert_eq!(resolve_result_url("https://example.com/x"), "https://example.com/x");
}

#[test]
fn test_unparseable_page_is_reported_as_blocked() {
    let out = build_output_from_ddg("nothing", "<html><body>no results</body></html>", 5);
    assert_eq!(out.result_count, 0);
    assert!(out.references.is_empty());
    assert_eq!(out.status, SearchStatus::Blocked);
    assert!(out.status.is_failure());
}

#[test]
fn test_real_results_page_with_no_hits_is_empty() {
    let html = "<html><body><table><tr><td class=\"result-count\">No results.</td>\
                </tr></table></body></html>";
    let out = build_output_from_ddg("zzz", html, 5);
    assert_eq!(out.status, SearchStatus::Empty);
    assert!(!out.status.is_failure());
}

const PAGE: &str = r#"<html><body><table>
    <tr><td><a class="result-link" href="//duckduckgo.com/l/?uddg=https%3A%2F%2Fone.test%2Fa&amp;rut=x">First   hit</a></td></tr>
    <tr><td class="result-snippet">About   the first.</td></tr>
    <tr><td><a class="result-link" href="https://two.test/b">Second hit</a></td></tr>
    <tr><td><a class="result-link" href="https://three.test/c">Third hit</a></td></tr>
</table></body></html>"#;

#[test]
fn a_results_page_is_numbered_cited_and_capped() {
    let results = parse_ddg_lite(PAGE, 10);
    assert_eq!(results.len(), 3);
    assert_eq!(results[0].title, "First hit");
    assert_eq!(results[0].url, "https://one.test/a");
    assert_eq!(results[0].snippet, "About the first.");
    assert_eq!(results[2].ref_index, 3);
    assert_eq!(parse_ddg_lite(PAGE, 2).len(), 2);

    let refs = build_refs(&results);
    assert_eq!(refs[1].index, 2);
    assert_eq!(refs[1].url, "https://two.test/b");

    let body = format_results(&results);
    assert!(body.starts_with("First hit [1]\nAbout the first.\n\nSecond hit [2]"), "{body}");
    assert!(!body.contains("https://"), "{body}");
}

#[test]
fn an_output_renders_its_references_after_the_results() {
    let out = build_output_from_ddg("q", PAGE, 2);
    assert_eq!(out.status, SearchStatus::Success);
    assert_eq!(out.provider, "duckduckgo");
    assert_eq!(out.result_count, 2);
    let text = render_output(&out);
    assert!(
        text.ends_with("References:\n[1] https://one.test/a\n[2] https://two.test/b"),
        "{text}"
    );
    assert!(status_note(&out).is_none());
}

#[test]
fn a_blocked_search_says_it_was_not_answered() {
    let out = build_output("q", Vec::new(), SearchStatus::Blocked, "brave");
    let note = status_note(&out).unwrap();
    assert!(note.contains("provider: brave"), "{note}");
    assert!(note.contains("not the same as having no results"), "{note}");
    let empty = build_output("zzz", Vec::new(), SearchStatus::Empty, "duckduckgo");
    assert_eq!(status_note(&empty).unwrap(), "No results for `zzz` (provider: duckduckgo).");
}

fn output(status: SearchStatus, provider: &str) -> SearchOutput {
    build_output("q", Vec::new(), status, provider)
}

#[test]
fn a_fallback_answers_only_when_the_primary_did_not() {
    let answered: Result<SearchOutput, String> = Ok(output(SearchStatus::Empty, "brave"));
    let got = select_outcome(answered, Some(Ok(output(SearchStatus::Success, "duckduckgo"))));
    assert_eq!(got.unwrap().provider, "brave");

    let blocked: Result<SearchOutput, String> = Ok(output(SearchStatus::Blocked, "duckduckgo"));
    let got = select_outcome(blocked, Some(Ok(output(SearchStatus::Success, "brave"))));
    assert_eq!(got.unwrap().provider, "brave");

    let failed: Result<SearchOutput, String> = Err("primary down".to_string());
    let got = select_outcome(failed, Some(Err("fallback down".to_string())));
    assert_eq!(got.unwrap_err(), "primary down");
}

#[test]
fn the_lite_url_carries_the_query_and_the_safe_search_switch() {
    assert_eq!(lite_url("a b&c", None), "https://lite.duckduckgo.com/lite/?q=a%20b%26c");
    assert_eq!(lite_url("x", Some(true)), "https://lite.duckduckgo.com/lite/?q=x&kp=1");
    assert_eq!(lite_url("x", Some(false)), "https://lite.duckduckgo.com/lite/?q=x&kp=-1");
}

// --- providers ----------------------------------------------------------------

const BRAVE_SAMPLE: &str = r#"{
  "type": "search",
  "web": { "results": [
    { "title": "Rust async book", "url": "https://rust-lang.github.io/async-book/",
      "description": "Asynchronous programming in <strong>Rust</strong>." },
    { "title": "Tokio", "url": "https://tokio.rs", "description": "An async runtime." }
  ]}
}"#;

#[test]
fn parses_results_and_numbers_references() {
    let (results, status) = brave::parse(BRAVE_SAMPLE, 10);
    assert_eq!(status, SearchStatus::Success);
    assert_eq!(results.len(), 2);
    assert_eq!(results[0].url, "https://rust-lang.github.io/async-book/");
    assert_eq!(results[0].ref_index, 1);
    assert_eq!(results[1].ref_index, 2);
    assert_eq!(results[1].snippet, "An async runtime.");
}

#[test]
fn respects_max_results() {
    let (results, _) = brave::parse(BRAVE_SAMPLE, 1);
    assert_eq!(results.len(), 1);
}

#[test]
fn no_hits_is_empty_not_blocked() {
    let (results, status) = brave::parse(r#"{"web":{"results":[]}}"#, 10);
    assert!(results.is_empty());
    assert_eq!(status, SearchStatus::Empty);
}

#[test]
fn brave_unparseable_body_is_blocked() {
    let (_, status) = brave::parse("<html>gateway error</html>", 10);
    assert_eq!(status, SearchStatus::Blocked);
}

#[test]
fn missing_web_key_degrades_to_empty() {
    let (results, status) = brave::parse(r#"{"query":{"original":"x"}}"#, 10);
    assert!(results.is_empty());
    assert_eq!(status, SearchStatus::Empty);
}

#[test]
fn parses_results() {
    let body = r#"{"query":"x","results":[
        {"url":"https://a.test/1","title":"Alpha","content":"About alpha."},
        {"url":"https://b.test/2","title":"Bravo","content":"About bravo."}]}"#;
    let (results, status) = searxng::parse(body, 10);
    assert_eq!(status, SearchStatus::Success);
    assert_eq!(results.len(), 2);
    assert_eq!(results[1].title, "Bravo");
}

#[test]
fn html_error_page_is_blocked() {
    assert_eq!(searxng::parse("<html>502</html>", 10).1, SearchStatus::Blocked);
}

const TAVILY_SAMPLE: &str = r#"{
  "query": "rust async",
  "results": [
    { "title": "Tokio", "url": "https://tokio.rs",
      "content": "Tokio is an   asynchronous runtime for Rust.", "score": 0.98 },
    { "title": "async-std", "url": "https://async.rs", "content": "An async standard library." }
  ]
}"#;

#[test]
fn parses_results_with_content_as_snippet() {
    let (results, status) = tavily::parse(TAVILY_SAMPLE, 10);
    assert_eq!(status, SearchStatus::Success);
    assert_eq!(results.len(), 2);
    assert_eq!(results[0].snippet, "Tokio is an asynchronous runtime for Rust.");
    assert_eq!(results[1].ref_index, 2);
}

#[test]
fn no_hits_is_empty() {
    let (_, status) = tavily::parse(r#"{"results":[]}"#, 10);
    assert_eq!(status, SearchStatus::Empty);
}

#[test]
fn tavily_unparseable_body_is_blocked() {
    assert_eq!(tavily::parse("not json", 10).1, SearchStatus::Blocked);
}

#[test]
fn a_tavily_hit_without_content_falls_back_to_its_snippet_field() {
    let body = r#"{"results":[{"title":"T","url":"https://t.test","snippet":"from  snippet"}]}"#;
    let (results, _) = tavily::parse(body, 10);
    assert_eq!(results[0].snippet, "from snippet");
}

#[test]
fn json_results_skip_entries_without_a_url() {
    let items: Vec<String> = vec![
        r#"{"title":"A","url":"https://a.test","description":"about a"}"#.to_string(),
        r#"{"title":"No URL","description":"skipped"}"#.to_string(),
        r#"{"title":"B","url":"https://b.test"}"#.to_string(),
    ];
    let got = results_from_json(&items, "title", "url", &["description"], 10);
    assert_eq!(got.len(), 2);
    assert_eq!(got[0].ref_index, 1);
    assert_eq!(got[0].snippet, "about a");
    assert_eq!(got[1].ref_index, 2, "indices stay contiguous after a skip");
    assert_eq!(got[1].snippet, "");
}

#[test]
fn json_results_respect_max() {
    let items: Vec<String> = vec![r#"{"url":"https://a"}"#.to_string(), r#"{"url":"https://b"}"#.to_string()];
    assert_eq!(results_from_json(&items, "t", "url", &[], 1).len(), 1);
}

#[test]
fn debug_never_prints_a_key() {
    let p = Provider::Brave { api_key: "SECRET-KEY-VALUE".into() };
    let shown = p.debug_string();
    assert!(!shown.contains("SECRET-KEY-VALUE"), "leaked: {shown}");
    assert!(shown.contains("<redacted>"));

    let p = Provider::Searxng {
        base_url: "https://searx.test".into(),
        api_key: Some("SECRET-KEY-VALUE".into()),
    };
    let shown = p.debug_string();
    assert!(!shown.contains("SECRET-KEY-VALUE"), "leaked: {shown}");
    assert_eq!(shown, "Searxng { base_url: \"https://searx.test\", api_key: <redacted> }");
}

#[test]
fn provider_names_parse() {
    assert_eq!(Provider::parse_name("Brave"), Some("brave"));
    assert_eq!(Provider::parse_name(" ddg "), Some("duckduckgo"));
    assert_eq!(Provider::parse_name("searx"), Some("searxng"));
    assert_eq!(Provider::parse_name("nope"), None);
}

#[test]
fn a_destination_is_given_as_the_url_crate_writes_it() {
    assert_eq!(resolve_result_url("  https://Example.COM  "), "https://example.com/");
    assert_eq!(resolve_result_url("not a url"), "not a url");
    assert_eq!(resolve_result_url("   "), "");
}

#[test]
fn a_searxng_endpoint_drops_trailing_slashes() {
    assert_eq!(webtools::search::providers::searxng::endpoint("https://s.test//"), "https://s.test/search");
    assert_eq!(webtools::search::providers::searxng::endpoint("https://s.test"), "https://s.test/search");
}

#[test]
fn the_query_encoder_keeps_unreserved_bytes_and_escapes_the_rest() {
    assert_eq!(encode("AZaz09-._~"), "AZaz09-._~");
    assert_eq!(encode("a b/c?d=e"), "a%20b%2Fc%3Fd%3De");
    assert_eq!(encode("caf\u{e9}"), "caf%C3%A9");
    assert_eq!(encode(""), "");
}

#[test]
fn brave_requests_cap_the_count_and_spell_safe_search_its_way() {
    let want = |v: &[(&str, &str)]| -> Vec<(String, String)> {
        v.iter().map(|(a, b)| (a.to_string(), b.to_string())).collect()
    };
    assert_eq!(
        brave::request_params("rust", 50, Some(true)),
        want(&[("q", "rust"), ("count", "20"), ("safesearch", "strict")])
    );
    assert_eq!(
        brave::request_params("rust", 7, Some(false)),
        want(&[("q", "rust"), ("count", "7"), ("safesearch", "off")])
    );
    assert_eq!(brave::request_params("rust", 3, None), want(&[("q", "rust"), ("count", "3")]));
}

#[test]
fn searxng_requests_ask_for_json_and_spell_safe_search_as_digits() {
    let want = |v: &[(&str, &str)]| -> Vec<(String, String)> {
        v.iter().map(|(a, b)| (a.to_string(), b.to_string())).collect()
    };
    assert_eq!(
        searxng::request_params("q1", Some(true)),
        want(&[("q", "q1"), ("format", "json"), ("safesearch", "2")])
    );
    assert_eq!(
        searxng::request_params("q1", Some(false)),
        want(&[("q", "q1"), ("format", "json"), ("safesearch", "0")])
    );
    assert_eq!(searxng::request_params("q1", None), want(&[("q", "q1"), ("format", "json")]));
}

#[test]
fn tavily_request_body_is_the_json_object_serde_writes() {
    assert_eq!(tavily::request_body("rust", 5), "{\"max_results\":5,\"query\":\"rust\"}");
    assert_eq!(
        tavily::request_body("say \"hi\"\n", 10),
        "{\"max_results\":10,\"query\":\"say \\\"hi\\\"\\n\"}"
    );
}
