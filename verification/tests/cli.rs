use webtools::cli::{decode_local, fetch_notes, fetch_options, fetch_output, parse_safe_search};
use webtools::config::FetchConfig;
use webtools::page::convert_html;
use webtools::tls::tls_config;
use webtools::types::{ContentType, FetchOptions};

#[test]
fn safe_search_accepts_both_spellings() {
    assert_eq!(parse_safe_search(Some("on")), Some(true));
    assert_eq!(parse_safe_search(Some("STRICT")), Some(true));
    assert_eq!(parse_safe_search(Some("off")), Some(false));
    assert_eq!(parse_safe_search(None), None);
    assert_eq!(parse_safe_search(Some("maybe")), None);
}

#[test]
fn ca_certs_from_flags_and_config_are_merged() {
    let configured = vec!["/etc/ssl/corp.pem".to_string()];
    let tls = tls_config(vec!["/tmp/extra.pem".to_string()], false, &configured);
    assert_eq!(tls.ca_certs.len(), 2);
    assert!(!tls.insecure);
    assert_eq!(tls.ca_certs[0], "/etc/ssl/corp.pem");
}

#[test]
fn a_flag_beats_the_config_file() {
    let cfg = FetchConfig {
        timeout_secs: Some(20),
        max_tokens: Some(4000),
        ca_certs: vec!["/etc/ssl/corp.pem".to_string()],
        cache_ttl_secs: None,
    };
    let o = fetch_options(Some("https://x.test".to_string()), "md", None, 0, Some(5), vec![], false, &cfg);
    assert_eq!(o.timeout_secs, 5);
    assert_eq!(o.max_tokens, Some(4000));
    assert_eq!(o.content_type, ContentType::Markdown);
    let o = fetch_options(None, "text", Some(10), 3, None, vec!["/x.pem".to_string()], true, &cfg);
    assert_eq!(o.url, "");
    assert_eq!(o.timeout_secs, 20);
    assert_eq!(o.max_tokens, Some(10));
    assert_eq!(o.tls.ca_certs, vec!["/etc/ssl/corp.pem".to_string(), "/x.pem".to_string()]);
    assert!(o.tls.insecure);
}

#[test]
fn a_local_body_is_decoded_with_its_declared_charset() {
    let (text, undecodable) = decode_local(b"<meta charset=\"windows-1252\"><p>caf\xe9</p>");
    assert!(text.contains("caf\u{e9}"), "{text}");
    assert_eq!(undecodable, None);
    let (_, undecodable) = decode_local(b"<meta charset=\"x-made-up\"><p>x</p>");
    assert_eq!(undecodable.as_deref(), Some("x-made-up"));
}

#[test]
fn a_complete_fetch_prints_no_continuation() {
    let result = convert_html(
        "<html><head><title>T</title></head><body><p>Short page.</p></body></html>",
        "https://x.test/",
        &FetchOptions::default(),
    );
    assert_eq!(fetch_output(&result), "T\nhttps://x.test/\n\nShort page.\n");
    assert!(fetch_notes(&result).is_empty());
}

#[test]
fn a_budgeted_fetch_prints_where_it_stopped_and_how_to_continue() {
    let body = format!("<article><p>{}</p></article>", "word ".repeat(300));
    let mut options = FetchOptions::default();
    options.max_tokens = Some(40);
    let result = convert_html(&body, "", &options);
    let out = fetch_output(&result);
    assert!(out.contains("; continue with --offset "), "{out}");
    assert!(!out.starts_with('\n'));
}
