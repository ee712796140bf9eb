use webtools::cache::{
    effective_ttl, fnv1a, hex16, is_entry_file, parse_u64, Cache, CacheEnv, Entry, Lookup,
    DEFAULT_TTL_SECS, MAX_ENTRIES,
};

fn env() -> CacheEnv {
    CacheEnv {
        no_cache: None,
        ttl: None,
        dir: Some("/var/cache/wt".to_string()),
        xdg_cache_home: None,
        home: None,
        macos: false,
    }
}

fn entry(url: &str, fetched_at: u64) -> Entry {
    Entry {
        url: url.to_string(),
        fetched_at,
        final_url: "https://example.com/final".to_string(),
        content_type: Some("text/html".to_string()),
        undecodable_charset: None,
        body: "hello".to_string(),
    }
}

#[test]
fn either_switch_turns_the_cache_off() {
    assert_eq!(effective_ttl(true, false, Some(60), Some(60)), None);
    assert_eq!(effective_ttl(false, true, Some(60), Some(60)), None);
    assert_eq!(effective_ttl(false, false, None, Some(0)), None);
    assert_eq!(effective_ttl(false, false, Some(0), None), None);
}

#[test]
fn ttl_precedence_is_env_then_config_then_default() {
    assert_eq!(effective_ttl(false, false, Some(30), Some(60)), Some(30));
    assert_eq!(effective_ttl(false, false, None, Some(60)), Some(60));
    assert_eq!(effective_ttl(false, false, None, None), Some(DEFAULT_TTL_SECS));
}

#[test]
fn keys_are_stable_and_distinct() {
    assert_eq!(fnv1a("https://example.com/a"), fnv1a("https://example.com/a"));
    assert_ne!(fnv1a("https://example.com/a"), fnv1a("https://example.com/b"));
}

#[test]
fn fnv1a_matches_its_reference_values() {
    assert_eq!(fnv1a(""), 0xcbf29ce484222325);
    assert_eq!(fnv1a("a"), 0xaf63dc4c8601ec8c);
    assert_eq!(hex16(0xaf63dc4c8601ec8c), "af63dc4c8601ec8c");
    assert_eq!(hex16(255), "00000000000000ff");
}

#[test]
fn a_cache_without_a_directory_stores_and_serves_nothing() {
    let mut e = env();
    e.dir = None;
    let cache = Cache::resolve(false, None, &e);
    assert_eq!(cache.dir(), None);
    assert_eq!(cache.path_for("https://example.com/doc"), None);
}

#[test]
fn the_environment_can_switch_the_cache_off_or_set_its_ttl() {
    let mut e = env();
    e.no_cache = Some(" Yes ".to_string());
    let off = Cache::resolve(false, Some(60), &e);
    assert_eq!(off.ttl_secs(), 0);
    assert_eq!(off.dir(), None);

    let mut e = env();
    e.ttl = Some(" 120 ".to_string());
    let on = Cache::resolve(false, Some(60), &e);
    assert_eq!(on.ttl_secs(), 120);
    assert_eq!(on.dir(), Some("/var/cache/wt"));
}

#[test]
fn the_cache_lives_under_xdg_or_home() {
    let mut e = env();
    e.dir = Some(String::new());
    e.xdg_cache_home = Some("/xdg".to_string());
    assert_eq!(Cache::resolve(false, None, &e).dir(), Some("/xdg/webtools/fetch"));
    e.xdg_cache_home = Some("relative".to_string());
    e.home = Some("/home/u".to_string());
    assert_eq!(Cache::resolve(false, None, &e).dir(), Some("/home/u/.cache/webtools/fetch"));
    e.macos = true;
    assert_eq!(
        Cache::resolve(false, None, &e).dir(),
        Some("/home/u/Library/Caches/webtools/fetch")
    );
}

#[test]
fn an_entry_is_named_by_its_key() {
    let cache = Cache::resolve(false, None, &env());
    let path = cache.path_for("a").unwrap();
    assert_eq!(path, "/var/cache/wt/af63dc4c8601ec8c.json");
}

#[test]
fn a_stored_page_comes_back_intact() {
    let cache = Cache::resolve(false, None, &env());
    match cache.lookup(entry("https://example.com/doc", 1000), "https://example.com/doc", 1100) {
        Lookup::Hit(page) => {
            assert_eq!(page.body, "hello");
            assert_eq!(page.final_url, "https://example.com/final");
            assert_eq!(page.content_type.as_deref(), Some("text/html"));
        }
        _ => panic!("expected a hit"),
    }
}

#[test]
fn a_different_url_is_a_miss() {
    let cache = Cache::resolve(false, None, &env());
    assert!(matches!(
        cache.lookup(entry("https://example.com/a", 1000), "https://example.com/b", 1000),
        Lookup::Miss
    ));
}

#[test]
fn an_expired_entry_is_a_miss_and_is_removed() {
    let cache = Cache::resolve(false, None, &env());
    assert!(matches!(
        cache.lookup(entry("https://example.com/doc", 10_000 - 901), "https://example.com/doc", 10_000),
        Lookup::Expired
    ));
}

#[test]
fn an_entry_inside_the_window_is_still_served() {
    let cache = Cache::resolve(false, None, &env());
    assert!(matches!(
        cache.lookup(entry("https://example.com/doc", 10_000 - 899), "https://example.com/doc", 10_000),
        Lookup::Hit(_)
    ));
}

#[test]
fn a_prune_drops_expired_entries_then_the_oldest() {
    let cache = Cache::resolve(false, None, &env());
    let now = 100_000;
    let mut modified = vec![now - 5_000];
    for i in 0..(MAX_ENTRIES as u64 + 2) {
        modified.push(now - 100 + (i % 7));
    }
    let plan = cache.prune_plan(&modified, now);
    assert!(plan[0], "an expired entry is removed");
    let kept = plan.iter().filter(|r| !**r).count();
    assert_eq!(kept, MAX_ENTRIES);
    let newest_removed = modified.iter().zip(&plan).skip(1).filter(|(_, r)| **r).map(|(m, _)| *m).max().unwrap();
    let oldest_kept = modified.iter().zip(&plan).filter(|(_, r)| !**r).map(|(m, _)| *m).min().unwrap();
    assert!(newest_removed <= oldest_kept);
}

#[test]
fn only_json_files_are_entries() {
    assert!(is_entry_file("0123456789abcdef.json"));
    assert!(!is_entry_file("0123456789abcdef.json.tmp42"));
    assert!(!is_entry_file(".json"));
    assert!(!is_entry_file("notes.txt"));
}

#[test]
fn numbers_parse_as_str_parse_reads_them() {
    assert_eq!(parse_u64("+42"), Some(42));
    assert_eq!(parse_u64("18446744073709551615"), Some(u64::MAX));
    assert_eq!(parse_u64("18446744073709551616"), None);
    assert_eq!(parse_u64(""), None);
    assert_eq!(parse_u64("+"), None);
    assert_eq!(parse_u64("-1"), None);
    assert_eq!(parse_u64("1 2"), None);
}
