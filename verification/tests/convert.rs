use webtools::convert::markdown::html_to_markdown;
use webtools::convert::text::{html_to_text_with_refs, render_references};
use webtools::convert::{convert, Converted};
use webtools::types::{ContentType, UrlReference};

#[test]
fn test_references_block_rendering() {
    let refs = vec![
        UrlReference {
            index: 1,
            url: "https://a.test/x".into(),
            text: "x".into(),
        },
        UrlReference {
            index: 2,
            url: "https://b.test/y".into(),
            text: "y".into(),
        },
    ];
    let block = render_references(&refs);
    assert_eq!(
        block,
        "References:\n[1] https://a.test/x\n[2] https://b.test/y"
    );
}

#[test]
fn table_cells_are_separated() {
    let html = "<article><table>\
                <tr><th>Name</th><th>Type</th></tr>\
                <tr><td>alpha</td><td>string</td></tr>\
                </table></article>";
    let (text, _) = html_to_text_with_refs(html, "https://x.test/");
    assert!(text.contains("Name | Type"), "text: {text:?}");
    assert!(text.contains("alpha | string"), "text: {text:?}");
}

#[test]
fn unfetchable_schemes_get_no_reference() {
    let html = r##"<article><p>
        <a href="javascript:alert(1)">js</a>
        <a href="mailto:a@b.c">mail</a>
        <a href="#top">anchor</a>
        <a href="/ok">ok</a></p></article>"##;
    let (text, refs) = html_to_text_with_refs(html, "https://x.test/");
    assert_eq!(refs.len(), 1, "refs: {refs:?}");
    assert_eq!(refs[0].url, "https://x.test/ok");
    assert!(text.contains("ok [1]"));
}

#[test]
fn unfetchable_schemes_stay_plain_text() {
    let html = r#"<article><p><a href="javascript:alert(1)">click</a>
        and <a href="/ok">ok</a></p></article>"#;
    let md = html_to_markdown(html, "https://x.test/");
    assert!(!md.contains("javascript:"), "md: {md}");
    assert!(!md.contains("[click]("), "js link must not stay live: {md}");
    assert!(md.contains("click"), "anchor text is still kept: {md}");
    assert!(md.contains("[ok](https://x.test/ok)"), "md: {md}");
}

#[test]
fn duplicate_urls_share_one_reference() {
    let html = r#"<article><p>See the <a href="/api/users">users endpoint</a> and
        <a href="https://auth.example.com/oauth2">OAuth2</a>; again the
        <a href="/api/users">users endpoint</a>.</p></article>"#;
    let (text, refs) = html_to_text_with_refs(html, "https://docs.example.com/page");
    assert!(text.contains("users endpoint [1]"), "text was: {text}");
    assert!(text.contains("OAuth2 [2]"), "text was: {text}");
    assert_eq!(text.matches("[1]").count(), 2, "text was: {text}");
    assert_eq!(refs.len(), 2);
    assert_eq!(refs[0].url, "https://docs.example.com/api/users");
    assert_eq!(refs[1].index, 2);
}

#[test]
fn skippable_elements_are_excluded() {
    let html = "<article><p>keep me</p><script>ignore me</script><style>p{}</style></article>";
    let (text, _) = html_to_text_with_refs(html, "https://x.test/");
    assert!(text.contains("keep me"));
    assert!(!text.contains("ignore me"));
}

#[test]
fn markdown_keeps_headings_and_links_inline() {
    let html = r#"<article><h1>Why References Matter</h1><p>See our <a href="/refs">references page</a>.</p></article>"#;
    let Converted { content, references } =
        convert(html, "https://blog.example.com/post", ContentType::Markdown);
    assert!(content.contains("# Why References Matter"), "{content}");
    assert!(content.contains("[references page](https://blog.example.com/refs)"), "{content}");
    assert_eq!(references.len(), 1);
}

#[test]
fn a_page_without_a_base_url_keeps_only_absolute_links() {
    let html = r#"<article><p><a href="/rel">rel</a> <a href="https://abs.test/x">abs</a></p></article>"#;
    let (text, refs) = html_to_text_with_refs(html, "");
    assert_eq!(refs.len(), 1);
    assert_eq!(refs[0].url, "https://abs.test/x");
    assert!(text.contains("abs [1]"), "{text}");
}

#[test]
fn only_fetchable_links_earn_references() {
    let html = "<html><body><p>\
        <a href=\"\">empty</a> <a href=\"  #top \">anchor</a> \
        <a href=\"javascript:void(0)\">js</a> <a href=\"MAILTO:a@b.c\">mail</a> \
        <a href=\"data:text/plain,hi\">data</a> <a href=\"tel:123\">phone</a> \
        <a href=\"/real\">real</a></p></body></html>";
    let (text, refs) = html_to_text_with_refs(html, "https://example.com/page");
    assert_eq!(refs.len(), 1, "{text}");
    assert_eq!(refs[0].url, "https://example.com/real");
    assert_eq!(refs[0].index, 1);
}
