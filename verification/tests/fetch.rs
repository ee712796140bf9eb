use webtools::fetch::{declared_charset, next_delay_ms, redirect_target, redirect_allowed, should_retry, sniff_meta_charset, total_budget_secs};
use webtools::http::{push_capped, transient_send, transient_status};

#[test]
fn push_capped_truncates_oversized_chunk() {
    let mut buf = Vec::new();
    let stopped = push_capped(&mut buf, &[b'x'; 10], 4);
    assert!(stopped);
    assert_eq!(buf.len(), 4);
}

#[test]
fn push_capped_accumulates_until_cap() {
    let mut buf = Vec::new();
    assert!(!push_capped(&mut buf, b"abc", 8));
    assert!(!push_capped(&mut buf, b"de", 8));
    assert_eq!(buf, b"abcde");
    let stopped = push_capped(&mut buf, b"fghij", 8);
    assert!(stopped);
    assert_eq!(buf.len(), 8);
    assert_eq!(buf, b"abcdefgh");
}

#[test]
fn push_capped_small_body_unaffected() {
    let mut buf = Vec::new();
    let stopped = push_capped(&mut buf, b"hello", 1024);
    assert!(!stopped);
    assert_eq!(buf, b"hello");
}

#[test]
fn transient_status_covers_5xx_and_429() {
    assert!(transient_status(500));
    assert!(transient_status(429));
    assert!(!transient_status(404));
    assert!(!transient_status(403));
}

#[test]
fn a_meta_charset_is_found_in_the_head() {
    assert_eq!(
        sniff_meta_charset(b"<html><head><META CHARSET = \"Shift_JIS\"></head>"),
        Some("shift_jis".to_string())
    );
    assert_eq!(
        sniff_meta_charset(b"<meta http-equiv=\"Content-Type\" content=\"text/html; charset=windows-1252\">"),
        Some("windows-1252".to_string())
    );
    assert_eq!(sniff_meta_charset(b"<p>no declaration</p>"), None);
    assert_eq!(sniff_meta_charset(b"charset=\"\""), None);
}

#[test]
fn a_declaration_past_the_window_is_not_seen() {
    let mut body = vec![b' '; 2048];
    body.extend_from_slice(b"<meta charset=latin1>");
    assert_eq!(sniff_meta_charset(&body), None);
}

#[test]
fn retries_stop_at_the_last_attempt_or_the_deadline() {
    assert!(should_retry(1, true, false));
    assert!(should_retry(2, true, false));
    assert!(!should_retry(3, true, false));
    assert!(!should_retry(1, false, false));
    assert!(!should_retry(1, true, true));
}

#[test]
fn backoff_doubles_and_redirects_are_capped() {
    assert_eq!(next_delay_ms(200), 400);
    assert_eq!(next_delay_ms(u64::MAX), u64::MAX);
    assert!(redirect_allowed(4));
    assert!(!redirect_allowed(5));
    assert_eq!(total_budget_secs(10), 30);
    assert_eq!(total_budget_secs(u64::MAX), u64::MAX);
}

#[test]
fn a_failed_send_is_transient_when_it_timed_out_or_never_connected() {
    assert!(transient_send(true, false, false));
    assert!(transient_send(false, true, false));
    assert!(transient_send(false, false, true));
    assert!(!transient_send(false, false, false));
}

#[test]
fn the_header_charset_wins_over_the_meta_tag() {
    let raw = b"<html><head><meta charset=\"shift_jis\"></head></html>";
    assert_eq!(
        declared_charset(Some("text/html; charset=ISO-8859-1"), raw).as_deref(),
        Some("ISO-8859-1")
    );
    assert_eq!(declared_charset(Some("text/html"), raw).as_deref(), Some("shift_jis"));
    assert_eq!(declared_charset(None, raw).as_deref(), Some("shift_jis"));
    assert_eq!(declared_charset(None, b"<html></html>"), None);
}

#[test]
fn a_redirect_resolves_against_the_url_that_answered() {
    assert_eq!(redirect_target("https://a.test/x/y", "../z").as_deref(), Some("https://a.test/z"));
    assert_eq!(redirect_target("https://a.test/x", "http://b.test/q?r=1").as_deref(), Some("http://b.test/q?r=1"));
    assert_eq!(redirect_target("not a url", "/x"), None);
}
