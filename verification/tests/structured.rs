use webtools::compress::estimate_tokens;
use webtools::convert::structured::{budget_structured, html_to_structured, to_json, BlockKind};

#[test]
fn blocks_carry_their_kind() {
    let html = "<article><h2>Setup</h2><p>Install it.</p>\
                <ul><li>first</li><li>second</li></ul>\
                <pre>cargo build</pre><blockquote>note</blockquote>\
                <table><tr><td>a</td><td>b</td></tr></table></article>";
    let doc = html_to_structured(html, "https://x.test/");
    let kinds: Vec<_> = doc.blocks.iter().map(|b| b.kind).collect();
    assert_eq!(
        kinds,
        vec![
            BlockKind::Heading,
            BlockKind::Paragraph,
            BlockKind::ListItem,
            BlockKind::ListItem,
            BlockKind::Code,
            BlockKind::Quote,
            BlockKind::TableRow,
        ],
        "blocks: {:?}",
        doc.blocks
    );
    assert_eq!(doc.blocks[0].level, Some(2));
    assert_eq!(doc.blocks[0].text, "Setup");
    assert_eq!(doc.blocks[6].text, "a b");
}

#[test]
fn links_become_reference_markers() {
    let html = r#"<article><p>See the <a href="/guide">guide</a>.</p></article>"#;
    let doc = html_to_structured(html, "https://x.test/");
    assert_eq!(doc.references.len(), 1);
    assert_eq!(doc.references[0].url, "https://x.test/guide");
    assert!(doc.blocks[0].text.contains("[1]"), "{:?}", doc.blocks);
}

#[test]
fn text_outside_any_block_is_still_captured() {
    let html = "<article>bare text with no wrapper</article>";
    let doc = html_to_structured(html, "https://x.test/");
    assert_eq!(doc.blocks.len(), 1);
    assert_eq!(doc.blocks[0].text, "bare text with no wrapper");
}

#[test]
fn structured_json_matches_the_pretty_layout() {
    let html = r#"<article><h2>Setup</h2><p>See <a href="/g">the "guide"</a>.</p></article>"#;
    let doc = html_to_structured(html, "https://x.test/");
    let json = to_json(&doc);
    let expected = "{\n  \"blocks\": [\n    {\n      \"kind\": \"heading\",\n      \"level\": 2,\n      \"text\": \"Setup\"\n    },\n    {\n      \"kind\": \"paragraph\",\n      \"text\": \"See the \\\"guide\\\" [1].\"\n    }\n  ],\n  \"references\": [\n    {\n      \"index\": 1,\n      \"url\": \"https://x.test/g\",\n      \"text\": \"the \\\"guide\\\"\"\n    }\n  ]\n}";
    assert_eq!(json, expected);
}

#[test]
fn an_empty_document_serializes_to_empty_lists() {
    let doc = html_to_structured("<html><body></body></html>", "https://x.test/");
    assert_eq!(to_json(&doc), "{\n  \"blocks\": [],\n  \"references\": []\n}");
}

#[test]
fn a_larger_budget_never_keeps_fewer_blocks() {
    let html = "<article><h2>One</h2><p>First paragraph with a <a href=\"/a\">link</a>.</p>\
                <p>Second paragraph, a little longer than the first one.</p>\
                <p>Third paragraph cites <a href=\"/b\">another page</a> too.</p></article>";
    let doc = html_to_structured(html, "https://x.test/");
    let mut last = 0;
    for budget in (20..400).step_by(10) {
        let (json, _) = budget_structured(&doc, Some(budget));
        let v: serde_json::Value = serde_json::from_str(&json).unwrap();
        let n = v["blocks"].as_array().unwrap().len();
        assert!(n >= last, "budget {budget}: {n} blocks after {last}");
        if n > 0 {
            assert!(estimate_tokens(&json) <= budget);
        }
        last = n;
    }
    assert_eq!(last, doc.blocks.len());
}
