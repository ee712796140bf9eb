use webtools::compress::estimate_tokens;
use webtools::convert::convert_parsed;
use webtools::dom::parse_document;
use webtools::grep::{find_spans, grep, render, snippet_around, Match};
use webtools::outline::{outline, Section};
use webtools::types::ContentType;

const DOC: &str = "<article>\
    <h2>Installation</h2><p>Install it, then set the rate limit you want.</p>\
    <h2>Reference</h2><p>The rate limit defaults to sixty requests a minute.</p>\
    </article>";

fn parse(html: &str) -> (String, Vec<Section>) {
    let doc = parse_document(html);
    let text = convert_parsed(&doc, "https://example.com", ContentType::Text).content;
    let sections = outline(&doc, &text);
    (text, sections)
}

fn hits_for(text: &str, pattern: &str, sections: &[Section]) -> Vec<Match> {
    let spans = find_spans(pattern, text).unwrap();
    grep(text, &spans, sections)
}

fn occurrences(hits: &[Match]) -> usize {
    hits.iter().map(|h| h.nearby + 1).sum()
}

#[test]
fn a_hit_reports_where_to_read_it_and_which_section_it_is_in() {
    let (text, sections) = parse(DOC);
    let hits = hits_for(&text, "rate limit", &sections);

    assert_eq!(hits.len(), 2);
    assert_eq!(hits[0].section.as_deref(), Some("Installation"));
    assert_eq!(hits[1].section.as_deref(), Some("Reference"));
    assert!(text[hits[1].offset..].starts_with("rate limit"));
}

#[test]
fn a_lowercase_pattern_is_loose_and_an_uppercase_one_is_exact() {
    let (text, sections) = parse(DOC);
    assert_eq!(occurrences(&hits_for(&text, "install", &sections)), 2);
    assert_eq!(occurrences(&hits_for(&text, "Install", &sections)), 2);
    assert_eq!(hits_for(&text, "INSTALL", &sections).len(), 0);
}

#[test]
fn a_snippet_carries_context_without_splitting_words() {
    let (text, sections) = parse(DOC);
    let hits = hits_for(&text, "sixty", &sections);

    let snippet = &hits[0].snippet;
    assert!(snippet.contains("sixty requests"), "{snippet}");
    let trimmed = snippet.trim_matches('…');
    assert!(!trimmed.starts_with(' ') && !trimmed.ends_with(' '), "{snippet}");
}

#[test]
fn occurrences_in_one_neighbourhood_collapse_into_one_hit() {
    let dense = format!("<article><p>{}</p></article>", "The rate limit applies. ".repeat(4));
    let (text, sections) = parse(&dense);
    let hits = hits_for(&text, "rate limit", &sections);

    assert_eq!(hits.len(), 1);
    assert_eq!(hits[0].nearby, 3);
    assert!(render(&hits, "rate limit", None).contains("(+3 nearby)"));
}

#[test]
fn a_run_longer_than_a_snippet_becomes_several_hits() {
    let dense = format!("<article><p>{}</p></article>", "The rate limit applies. ".repeat(16));
    let (text, sections) = parse(&dense);
    let hits = hits_for(&text, "rate limit", &sections);

    assert!(hits.len() > 1);
    assert_eq!(occurrences(&hits), 16);
}

#[test]
fn occurrences_far_apart_stay_separate_hits() {
    let filler = "Words of filler in between the two mentions. ".repeat(8);
    let (text, sections) = parse(&format!(
        "<article><p>The rate limit applies.</p><p>{filler}</p><p>The rate limit again.</p></article>"
    ));
    let hits = hits_for(&text, "rate limit", &sections);

    assert_eq!(hits.len(), 2);
    assert_eq!(hits[0].nearby, 0);
    assert_eq!(occurrences(&hits), 2);
}

#[test]
fn a_page_without_the_pattern_says_so() {
    let (text, sections) = parse(DOC);
    let hits = hits_for(&text, "websocket", &sections);

    assert!(hits.is_empty());
    assert!(render(&hits, "websocket", None).contains("no matches"));
}

#[test]
fn a_page_without_headings_still_reports_offsets() {
    let (text, sections) = parse("<article><p>The rate limit is fixed.</p></article>");
    let hits = hits_for(&text, "rate limit", &sections);

    assert_eq!(hits.len(), 1);
    assert_eq!(hits[0].section, None);
    assert!(render(&hits, "rate limit", None).starts_with("offset 4 —"));
}

#[test]
fn a_budget_drops_whole_hits_and_says_how_many() {
    let (text, sections) = parse(DOC);
    let hits = hits_for(&text, "rate limit", &sections);
    let rendered = render(&hits, "rate limit", Some(40));

    assert!(estimate_tokens(&rendered) <= 40, "over budget: {rendered}");
    assert!(rendered.contains("more match(es) not shown"), "{rendered}");
}

#[test]
fn an_invalid_pattern_is_an_error_rather_than_a_panic() {
    assert!(find_spans("(unclosed", "").is_err());
}

#[test]
fn every_occurrence_is_counted_once() {
    let text = "alpha beta alpha gamma alpha";
    let spans = find_spans("alpha", text).unwrap();
    assert_eq!(spans, vec![(0, 5), (11, 16), (23, 28)]);
    let hits = grep(text, &spans, &[]);
    assert_eq!(occurrences(&hits), 3);
}

#[test]
fn a_snippet_is_the_text_when_it_is_short() {
    assert_eq!(snippet_around("the rate limit", 4, 8), "the rate limit");
}

#[test]
fn hits_come_in_order_at_match_starts_under_their_sections() {
    let text = format!("intro needle\n{}needle one\n{}needle two needle", "x ".repeat(100), "y ".repeat(100));
    let spans = find_spans("needle", &text).unwrap();
    let second = text.find("needle one").unwrap();
    let sections = vec![Section { level: 2, title: "Two".to_string(), offset: second, bytes: 0, token_estimate: 0 }];
    let hits = grep(&text, &spans, &sections);
    assert!(hits.len() >= 2);
    for w in hits.windows(2) {
        assert!(w[0].offset < w[1].offset);
    }
    for h in &hits {
        assert!(spans.iter().any(|s| s.0 == h.offset));
        let want = if h.offset >= second { Some("Two".to_string()) } else { None };
        assert_eq!(h.section, want);
    }
}

#[test]
fn a_budgeted_listing_is_leading_rows_then_the_note_then_the_footer() {
    let hits: Vec<Match> = (0..30)
        .map(|i| Match { offset: i * 1000, snippet: format!("snippet number {i}"), section: None, nearby: 0 })
        .collect();
    let footer = "\nRead a match by fetching it at the offset shown.";
    let all = render(&hits, "p", None);
    assert!(all.ends_with(footer));
    assert!(!all.contains("not shown"));
    let cut = render(&hits, "p", Some(60));
    assert!(cut.ends_with(footer));
    let body = cut.strip_suffix(footer).unwrap();
    let (rows, note) = body.rsplit_once('\n').unwrap();
    let shown = rows.lines().count();
    assert!(shown < hits.len());
    assert_eq!(note, format!("[{} more match(es) not shown; raise the token budget]", hits.len() - shown));
    for (i, line) in rows.lines().enumerate() {
        assert!(line.starts_with(&format!("offset {} —", i * 1000)), "{line}");
    }
    assert_eq!(render(&[], "needle", Some(5)), "[no matches for /needle/ in this page]");
}

#[test]
fn a_budgeted_render_stays_inside_the_budget() {
    let matches = vec![
        Match { offset: 0, snippet: "x".repeat(47), section: None, nearby: 0 },
        Match { offset: 500, snippet: "x".repeat(200), section: None, nearby: 0 },
    ];
    for budget in 27..80 {
        let out = render(&matches, "x", Some(budget));
        assert!(estimate_tokens(&out) <= budget, "{budget}: {out}");
        assert!(out.ends_with("\nRead a match by fetching it at the offset shown."));
    }
    let footer = "\nRead a match by fetching it at the offset shown.";
    assert_eq!(
        render(&matches, "x", Some(40)),
        format!("[2 more match(es) not shown; raise the token budget]{footer}")
    );
    let out = render(&matches, "x", Some(41));
    assert_eq!(
        out,
        format!("offset 0 — {}\n[1 more match(es) not shown; raise the token budget]{footer}", "x".repeat(47))
    );
    assert_eq!(estimate_tokens(&out), 41);
}

#[test]
fn a_snippet_window_is_clamped_to_the_text() {
    assert_eq!(snippet_around("the rate limit", 4, 100), "the rate limit");
    assert_eq!(snippet_around("the rate limit", 50, 60), "the rate limit");
}
