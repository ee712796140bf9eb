use webtools::compress::estimate_tokens;
use webtools::refs::{assemble, cited_indices, fit_to_budget, render_block, Reference};

fn refs(n: usize) -> Vec<Reference> {
    (1..=n)
        .map(|i| Reference {
            index: i,
            url: format!("https://example.com/very/long/path/segment/{i}?query=value#frag"),
        })
        .collect()
}

fn body_citing(n: usize) -> String {
    (1..=n)
        .map(|i| format!("Item {i} with filler prose describing the thing [{i}]."))
        .collect::<Vec<_>>()
        .join("\n")
}

#[test]
fn cited_indices_finds_markers() {
    let got = cited_indices("a [1] b [12] c [x] d [3]");
    assert_eq!(got.into_iter().collect::<Vec<_>>(), vec![1, 3, 12]);
}

#[test]
fn no_budget_keeps_everything() {
    let (content, kept) = fit_to_budget(&body_citing(3), &refs(3), None);
    assert_eq!(kept, vec![1, 2, 3]);
    assert!(content.contains("References:"));
    assert!(content.contains("[3] https://example.com"));
}

#[test]
fn link_dense_page_respects_the_cap() {
    let refs = refs(120);
    let (content, kept) = fit_to_budget(&body_citing(120), &refs, Some(200));
    assert!(
        estimate_tokens(&content) <= 200,
        "estimate {} content: {content}",
        estimate_tokens(&content)
    );
    assert!(kept.len() < 120, "kept {} of 120", kept.len());
}

#[test]
fn every_kept_reference_is_still_cited() {
    let refs = refs(120);
    let (content, kept) = fit_to_budget(&body_citing(120), &refs, Some(300));
    let body = content.split("References:").next().unwrap();
    let cited = cited_indices(body);
    for index in &kept {
        assert!(cited.contains(index), "kept [{index}] is not cited");
    }
}

#[test]
fn a_generous_budget_is_actually_used() {
    let refs = refs(120);
    let (content, _) = fit_to_budget(&body_citing(120), &refs, Some(1000));
    let used = estimate_tokens(&content);
    assert!(used <= 1000, "over budget: {used}");
    assert!(used >= 800, "left {} of 1000 tokens unused", 1000 - used);
}

#[test]
fn tiny_budget_still_fits() {
    let refs = refs(40);
    let (content, _) = fit_to_budget(&body_citing(40), &refs, Some(80));
    assert!(estimate_tokens(&content) <= 80, "estimate {}", estimate_tokens(&content));
}

#[test]
fn generous_budget_is_a_noop() {
    let refs = refs(3);
    let body = body_citing(3);
    let (content, kept) = fit_to_budget(&body, &refs, Some(100_000));
    assert_eq!(kept, vec![1, 2, 3]);
    assert_eq!(content, assemble(&body, &render_block(&refs)));
}

#[test]
fn body_without_references_is_plain_truncation() {
    let empty: [Reference; 0] = [];
    let (content, kept) = fit_to_budget(&"word ".repeat(500), &empty, Some(50));
    assert!(kept.is_empty());
    assert!(content.contains("…[truncated]"));
    assert!(estimate_tokens(&content) <= 50);
}

#[test]
fn an_overflowing_or_unclosed_marker_is_not_a_citation() {
    let got = cited_indices("[99999999999999999999999] [7 [8] [] [0012]");
    assert_eq!(got.into_iter().collect::<Vec<_>>(), vec![8, 12]);
}

#[test]
fn the_block_has_no_trailing_newline_and_is_empty_without_references() {
    let none: Vec<Reference> = Vec::new();
    assert_eq!(render_block(&none), "");
    assert_eq!(render_block(&refs(1)), "References:\n[1] https://example.com/very/long/path/segment/1?query=value#frag");
    assert_eq!(assemble("body", ""), "body");
    assert_eq!(assemble("body", "B"), "body\n\nB");
}

#[test]
fn the_budget_fitter_stays_within_caps_down_to_four_tokens() {
    for cap in 4..12 {
        let (content, _) = fit_to_budget(&body_citing(5), &refs(5), Some(cap));
        assert!(estimate_tokens(&content) <= cap, "{cap}: {content:?}");
    }
}

#[test]
fn the_block_is_the_header_and_lines_joined() {
    let got = render_block(&refs(2));
    let want = format!(
        "References:\n{}",
        refs(2).iter().map(|r| format!("[{}] {}", r.index, r.url)).collect::<Vec<_>>().join("\n")
    );
    assert_eq!(got, want);
    assert_eq!(render_block::<Reference>(&[]), "");
}

#[test]
fn only_bracketed_digit_runs_are_cited() {
    let got = cited_indices("[] [1a] [ 2] [3] [04] x[5]y [6");
    assert_eq!(got.into_iter().collect::<Vec<_>>(), vec![3, 4, 5]);
}
