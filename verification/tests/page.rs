use webtools::dom::{parse_document, NodeKind, RawNode};
use webtools::extract::undecodable_charset;
use webtools::fetch::FetchedPage;
use webtools::page::{classify_media, convert_body, convert_html, convert_html_nodes, convert_page, Media};
use webtools::types::{ContentStatus, ContentType, FetchOptions};

#[test]
fn only_unrecognized_charsets_are_reported() {
    let doc = parse_document("<html></html>");
    for header in [
        "text/html; charset=utf-8",
        "text/html; charset=ISO-8859-1",
        "text/html; charset=Shift_JIS",
        "text/html; charset=GBK",
    ] {
        assert_eq!(undecodable_charset(Some(header), &doc), None, "{header}");
    }
    let doc = parse_document(r#"<html><head><meta charset="x-made-up"></head></html>"#);
    assert_eq!(undecodable_charset(None, &doc), Some("x-made-up".into()));
}

#[test]
fn script_shell_is_needs_js_not_empty() {
    let html = "<html><body><div id=\"root\"></div><script src=\"/app.js\"></script></body></html>";
    let r = convert_html(html, "https://spa.test/", &FetchOptions::default());
    assert_eq!(r.status, ContentStatus::NeedsJs);
    assert!(r.status.is_failure());
}

#[test]
fn a_page_with_text_is_ok() {
    let html = "<html><body><article><p>Real words here.</p></article></body></html>";
    let r = convert_html(html, "https://x.test/", &FetchOptions::default());
    assert_eq!(r.status, ContentStatus::Success);
}

#[test]
fn a_page_keeps_the_requested_url_and_the_fetch_charset_verdict() {
    let page = FetchedPage {
        body: "<html><body><p>Hello <a href=\"/x\">there</a>.</p></body></html>".to_string(),
        final_url: "https://example.com/landed".to_string(),
        content_type: Some("text/html".to_string()),
        undecodable_charset: Some("x-weird".to_string()),
    };
    let mut options = FetchOptions::default();
    options.url = "https://example.com/asked".to_string();
    let r = convert_page(page, &options);
    assert_eq!(r.source, "https://example.com/asked");
    assert_eq!(r.final_url, "https://example.com/landed");
    assert_eq!(r.metadata.charset.as_deref(), Some("x-weird"));
    assert_eq!(r.references[0].url, "https://example.com/x");
    assert_eq!(r.status, ContentStatus::Success);
}

#[test]
fn json_and_text_bodies_are_passed_through_and_binary_is_summarized() {
    let options = FetchOptions::default();
    let r = convert_body("{\"a\":1}", "https://api.test/", Some("application/json"), &options);
    assert_eq!(r.media, "json");
    assert_eq!(r.content, "{\n  \"a\": 1\n}");
    assert_eq!(r.content_type, ContentType::Structured);

    let r = convert_body("  plain words  ", "https://t.test/", Some("text/plain; charset=utf-8"), &options);
    assert_eq!(r.media, "text");
    assert_eq!(r.content, "plain words");

    let r = convert_body("xyz", "https://b.test/", Some("image/png"), &options);
    assert_eq!(r.content, "[non-text content: image/png, 3 bytes — not rendered]");
    assert_eq!(r.status, ContentStatus::Success);
}

#[test]
fn a_missing_header_is_sniffed_from_the_body() {
    assert!(matches!(classify_media(None, "  <html></html>"), Media::Html));
    assert!(matches!(classify_media(None, "[1, 2]"), Media::Json));
    assert!(matches!(classify_media(None, "just text"), Media::Text));
    assert!(matches!(classify_media(Some("Application/XHTML+XML"), ""), Media::Html));
}

#[test]
fn a_deeply_nested_document_is_refused_before_parsing() {
    let html = "<div>".repeat(10_050);
    let r = convert_html(&html, "https://deep.test/", &FetchOptions::default());
    assert_eq!(r.status, ContentStatus::TooComplex);
    assert!(r.content.starts_with("[document refused: nesting depth"), "{}", r.content);
}

#[test]
fn a_budgeted_page_says_where_to_continue() {
    let body = format!("<article><p>{}</p></article>", "word ".repeat(400));
    let mut options = FetchOptions::default();
    options.max_tokens = Some(50);
    let first = convert_html(&body, "https://x.test/", &options);
    let next = first.next_offset.expect("a continuation");
    assert!(first.truncated);
    options.offset = next;
    let second = convert_html(&body, "https://x.test/", &options);
    assert_eq!(second.offset, next);
    assert_eq!(second.total_bytes, first.total_bytes);
}

#[test]
fn an_extraction_reads_a_node_list_built_by_hand() {
    let element = |depth: usize, name: &str| RawNode { depth, kind: NodeKind::Element(name.to_string(), Vec::new()) };
    let text = |depth: usize, t: &str| RawNode { depth, kind: NodeKind::Text(t.to_string()) };
    let nodes = vec![
        RawNode { depth: 0, kind: NodeKind::Other },
        element(1, "html"),
        element(2, "head"),
        element(3, "title"),
        text(4, "Hello"),
        element(2, "body"),
        element(3, "p"),
        text(4, "World wide words."),
    ];
    let mut options = FetchOptions::default();
    options.content_type = ContentType::Text;
    let r = convert_html_nodes(&nodes, "https://x.test/", None, &options);
    assert_eq!(r.title, "Hello");
    assert!(r.content.contains("World wide words."), "{}", r.content);
    assert!(r.references.is_empty());
}

#[test]
fn a_page_converts_as_its_body_does() {
    let body = "<html><head><title>T</title></head><body><p>Some words and <a href=\"/l\">a link</a>.</p></body></html>";
    let page = FetchedPage {
        body: body.to_string(),
        final_url: "https://example.com/b".to_string(),
        content_type: Some("text/html".to_string()),
        undecodable_charset: None,
    };
    let mut options = FetchOptions::default();
    options.url = "https://example.com/a".to_string();
    let direct = convert_body(body, "https://example.com/b", Some("text/html"), &options);
    let r = convert_page(page, &options);
    assert_eq!(r.content, direct.content);
    assert_eq!(r.status, direct.status);
    assert_eq!(r.title, direct.title);
    assert_eq!(r.references.len(), direct.references.len());
    assert_eq!(r.references[0].url, direct.references[0].url);
    assert_eq!(r.source, "https://example.com/a");
    assert_eq!(r.final_url, "https://example.com/b");
}
