use webtools::compress::estimate_tokens;
use webtools::convert::convert_parsed;
use webtools::dom::{parse_document, RawNode};
use webtools::outline::{outline, render, Section};
use webtools::types::ContentType;

const DOC: &str = "<article>\
    <h2>Getting started</h2><p>First you install it and then you run it.</p>\
    <h2>Reference</h2><p>Every flag, described at length for token cost.</p>\
    <h3>Flags</h3><p>The flags themselves, one after another.</p>\
    </article>";

fn parse(html: &str) -> (Vec<RawNode>, String) {
    let doc = parse_document(html);
    let text = convert_parsed(&doc, "https://example.com", ContentType::Text).content;
    (doc, text)
}

#[test]
fn every_heading_becomes_a_section_at_its_own_offset() {
    let (doc, text) = parse(DOC);
    let sections = outline(&doc, &text);

    let titles: Vec<&str> = sections.iter().map(|s| s.title.as_str()).collect();
    assert_eq!(titles, vec!["Getting started", "Reference", "Flags"]);
    assert_eq!(sections[0].level, 2);
    assert_eq!(sections[2].level, 3);
    for section in &sections {
        assert!(text[section.offset..].starts_with(&section.title));
    }
    assert!(sections[0].offset < sections[1].offset);
}

#[test]
fn a_section_offset_reads_that_section() {
    let (doc, text) = parse(DOC);
    let sections = outline(&doc, &text);
    let reference = &sections[1];

    let window = &text[reference.offset..reference.offset + reference.bytes];
    assert!(window.starts_with("Reference"));
    assert!(window.contains("Every flag"));
    assert!(!window.contains("First you install"));
}

#[test]
fn the_last_section_runs_to_the_end() {
    let (doc, text) = parse(DOC);
    let sections = outline(&doc, &text);
    let last = sections.last().expect("a section");

    assert_eq!(last.offset + last.bytes, text.len());
}

#[test]
fn a_repeated_title_lands_on_each_occurrence() {
    let (doc, text) = parse(
        "<article><h2>Parameters</h2><p>For the first endpoint here.</p>\
         <h2>Parameters</h2><p>For the second endpoint here.</p></article>",
    );
    let sections = outline(&doc, &text);

    assert_eq!(sections.len(), 2);
    assert_ne!(sections[0].offset, sections[1].offset);
    assert!(text[sections[1].offset..].starts_with("Parameters"));
}

#[test]
fn a_document_without_headings_has_no_outline() {
    let (doc, text) = parse("<article><p>Just prose, no headings at all.</p></article>");
    assert!(outline(&doc, &text).is_empty());
    assert!(render(&[], None).contains("no headings"));
}

#[test]
fn rendering_names_the_offset_that_reads_each_section() {
    let (doc, text) = parse(DOC);
    let rendered = render(&outline(&doc, &text), None);

    assert!(rendered.contains("Getting started — offset 0"));
    assert!(rendered.contains("at the offset shown"));
}

#[test]
fn a_budget_drops_whole_rows_and_says_how_many() {
    let (doc, text) = parse(DOC);
    let sections = outline(&doc, &text);
    let rendered = render(&sections, Some(40));

    assert!(estimate_tokens(&rendered) <= 40, "over budget: {rendered}");
    assert!(rendered.contains("Getting started"), "no rows kept: {rendered}");
    assert!(rendered.contains("more heading(s) not shown"), "{rendered}");
}

#[test]
fn a_budget_too_small_for_any_row_still_reports_the_count() {
    let (doc, text) = parse(DOC);
    let rendered = render(&outline(&doc, &text), Some(1));

    assert!(rendered.contains("3 more heading(s) not shown"), "{rendered}");
}

#[test]
fn sections_tile_the_body_from_the_first_heading() {
    let (doc, text) = parse(DOC);
    let sections = outline(&doc, &text);
    for pair in sections.windows(2) {
        assert_eq!(pair[0].offset + pair[0].bytes, pair[1].offset);
    }
    assert_eq!(sections[0].offset, 0);
}

#[test]
fn a_budgeted_outline_stays_inside_the_budget_and_counts_truly() {
    let sections: Vec<Section> = (0..12)
        .map(|i| Section {
            level: 2,
            title: format!("A fairly long heading title number {i}"),
            offset: i * 1000,
            bytes: 1000,
            token_estimate: 250,
        })
        .collect();
    for budget in 30..200 {
        let out = render(&sections, Some(budget));
        assert!(estimate_tokens(&out) <= budget, "{budget}: {out}");
        let shown = out.lines().filter(|l| l.contains(" — offset ")).count();
        if shown < sections.len() {
            let note = format!("[{} more heading(s) not shown; raise the token budget]", sections.len() - shown);
            assert!(out.contains(&note), "{budget}: {out}");
        }
    }
}
