use webtools::compress::{
    compress_block, compress_text, estimate_tokens, truncate_to_tokens, truncate_to_tokens_at,
    window_from, TRUNCATION_MARKER,
};

#[test]
fn estimate_unchanged_for_plain_prose() {
    assert_eq!(estimate_tokens(&"a".repeat(100)), 25);
}

#[test]
fn url_heavy_text_estimates_higher_than_prose_of_same_length() {
    let urls = "[1] https://example.com/a/b?c=d#e\n\
                [2] https://example.org/x/y/z?q=1\n\
                [3] https://sub.example.net/path/to/thing\n\
                [4] https://example.io/foo/bar/baz?k=v";
    let prose = "x".repeat(urls.len());
    assert_eq!(urls.len(), prose.len());
    assert!(
        estimate_tokens(urls) > estimate_tokens(&prose),
        "urls={} prose={}",
        estimate_tokens(urls),
        estimate_tokens(&prose)
    );
}

#[test]
fn truncate_respects_the_budget_it_reports() {
    let text = "a".repeat(1000);
    let out = truncate_to_tokens(&text, 20);
    assert!(out.ends_with(TRUNCATION_MARKER));
    assert!(estimate_tokens(&out) <= 20, "estimate {}", estimate_tokens(&out));
}

#[test]
fn truncate_respects_budget_on_url_heavy_text() {
    let urls = "[1] https://example.com/a/b?c=d#e\n".repeat(200);
    let out = truncate_to_tokens(&urls, 50);
    assert!(estimate_tokens(&out) <= 50, "estimate {}", estimate_tokens(&out));
}

#[test]
fn truncate_is_a_noop_within_budget() {
    let text = "short enough";
    assert_eq!(truncate_to_tokens(text, 1000), text);
}

#[test]
fn windows_tile_the_document_exactly() {
    let text = "Sentence number one is here. ".repeat(400);
    let mut offset = 0usize;
    let mut seen = String::new();
    let mut windows = 0;

    while offset < text.len() {
        let remainder = window_from(&text, offset);
        let (_, consumed) = truncate_to_tokens_at(remainder, 60);
        assert!(consumed > 0, "a window must make progress");
        seen.push_str(&remainder[..consumed]);
        offset += consumed;
        windows += 1;
        assert!(windows < 1000, "paging failed to terminate");
    }

    assert!(windows > 5, "expected several windows, got {windows}");
    assert_eq!(seen, text);
}

#[test]
fn a_pathologically_small_budget_still_makes_progress() {
    let text = "ünicode text that will not fit";
    let (out, consumed) = truncate_to_tokens_at(text, 1);
    assert!(consumed > 0);
    assert!(text.is_char_boundary(consumed));
    assert!(out.starts_with('ü'));
}

#[test]
fn a_window_ends_on_a_word_boundary_when_one_is_near() {
    let text = "alpha beta gamma delta epsilon zeta eta theta iota kappa lambda mu ".repeat(20);
    let (_, consumed) = truncate_to_tokens_at(&text, 20);
    assert!(
        text[..consumed].ends_with(' '),
        "cut mid-word: {:?}",
        &text[consumed.saturating_sub(12)..consumed]
    );
    assert!(window_from(&text, consumed).starts_with(char::is_alphabetic));
}

#[test]
fn text_without_a_boundary_still_yields_a_window() {
    let text = "x".repeat(500);
    let (_, consumed) = truncate_to_tokens_at(&text, 20);
    assert!(consumed > 0);
}

#[test]
fn consumption_covers_the_whole_text_when_nothing_is_cut() {
    let text = "well within budget";
    let (out, consumed) = truncate_to_tokens_at(text, 1000);
    assert_eq!(out, text);
    assert_eq!(consumed, text.len());
}

#[test]
fn window_clamps_past_the_end_and_snaps_to_a_char_boundary() {
    let text = "héllo wörld";
    assert_eq!(window_from(text, text.len() + 500), "");
    assert_eq!(window_from(text, 2), &text[1..]);
}

#[test]
fn truncate_never_splits_a_utf8_char() {
    let text = "é".repeat(500);
    let out = truncate_to_tokens(&text, 10);
    assert!(out.starts_with('é'));
    assert!(estimate_tokens(&out) <= 10);
}

#[test]
fn test_compress_collapses_whitespace() {
    let output = compress_text("hello   world\n\n\n  test");
    assert_eq!(output, "hello world test");
}

#[test]
fn test_compress_removes_decorative() {
    let output = compress_text("Click ▶ to play");
    assert_eq!(output, "Click to play");
}

#[test]
fn block_compression_keeps_one_blank_line_between_paragraphs() {
    let out = compress_block("\n\n  First   line \r\n\n\n\nSecond • line\n   \n");
    assert_eq!(out, "First line\n\nSecond line");
    assert_eq!(compress_block(""), "");
}

#[test]
fn a_url_punctuation_byte_costs_three_quarters() {
    // 8 bytes of which 4 are '/', ':' punctuation: 4 + 4 * 3 = 16 quarters.
    assert_eq!(estimate_tokens("a://b//c"), 4);
    assert_eq!(estimate_tokens("abc"), 0);
}

#[test]
fn a_paragraph_break_is_preferred_to_a_space() {
    let text = format!("{}\n\n{}", "word ".repeat(30), "tail ".repeat(40));
    let (out, consumed) = truncate_to_tokens_at(&text, 40);
    assert!(text[..consumed].ends_with(' ') || text[..consumed].ends_with("\n\n"));
    assert!(out.ends_with(TRUNCATION_MARKER));
    assert!(estimate_tokens(&out) <= 40);
}

#[test]
fn compressed_text_is_tidy_and_compressing_again_changes_nothing() {
    let once = compress_text("  \u{25B6}  Click\t\t\u{2022} here \n\n to   play \u{2713} ");
    assert_eq!(once, "Click here to play");
    assert_eq!(compress_text(&once), once);
}

#[test]
fn a_compressed_block_is_trimmed_with_no_three_newlines_and_tidy_lines() {
    let r = compress_block("\n\n  a  \u{25B6} b \n\n\n\n\n  c\t d  \n\n\n");
    assert_eq!(r, "a b\n\nc d");
    assert_eq!(r.trim(), r);
    assert!(!r.contains("\n\n\n"));
    for line in r.split('\n') {
        assert_eq!(compress_text(line), line);
    }
}

#[test]
fn the_estimate_counts_url_punctuation_twice_over() {
    // 12 bytes, 5 of them URL punctuation: (12 + 2 * 5) / 4 = 5.
    assert_eq!(estimate_tokens("a/b.c?d=e#fg"), 5);
    assert_eq!(estimate_tokens("abcdefgh"), 2);
}

#[test]
fn the_truncation_fits_budgets_down_to_four_tokens() {
    let text = "word ".repeat(200);
    for budget in 4..12 {
        let out = truncate_to_tokens(&text, budget);
        assert!(estimate_tokens(&out) <= budget, "{budget}: {out:?}");
    }
}

#[test]
fn test_truncate_to_tokens() {
    let text = "a".repeat(100);
    // The budget covers the whole output, marker included: the marker costs
    // fifteen quarter-tokens, so five tokens leave room for five `a`s.
    let out = truncate_to_tokens(&text, 5);
    assert_eq!(out, format!("{}{}", "a".repeat(5), TRUNCATION_MARKER));
    assert!(out.contains("truncated"));
    assert!(estimate_tokens(&out) <= 5);
    assert!(estimate_tokens(&text) == 25);
}
