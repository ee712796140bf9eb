use webtools::config::{
    config_path, Config, ConfigError, KeyEntry, ProviderCredentials, ProviderEnv, SearchConfig,
    SearxngEntry,
};
use webtools::search::providers::Provider;

fn no_env() -> ProviderEnv {
    ProviderEnv {
        webtools_brave_api_key: None,
        brave_api_key: None,
        webtools_tavily_api_key: None,
        tavily_api_key: None,
        searxng_url: None,
        searxng_api_key: None,
        search_provider: None,
        search_fallback: None,
    }
}

/// The search section of the sample settings file: provider `brave`,
/// fallback `duckduckgo`, a Brave key, and a SearXNG instance.
fn sample() -> Config {
    let mut config = Config::default();
    config.webtools.search = SearchConfig {
        provider: Some("brave".to_string()),
        fallback: Some("duckduckgo".to_string()),
        providers: ProviderCredentials {
            brave: Some(KeyEntry { api_key: Some("BSA-from-file".to_string()) }),
            tavily: None,
            searxng: Some(SearxngEntry { base_url: Some("https://searx.internal".to_string()), api_key: None }),
        },
    };
    config.webtools.fetch.timeout_secs = Some(20);
    config.webtools.fetch.max_tokens = Some(4000);
    config
}

#[test]
fn an_empty_file_is_all_defaults() {
    let config = Config::default();
    assert!(config.webtools.search.provider.is_none());
    assert!(config.webtools.fetch.ca_certs.is_empty());
}

#[test]
fn a_key_from_the_file_builds_a_provider() {
    let provider = sample().webtools.search.build("brave", &no_env()).ok().unwrap();
    assert_eq!(provider.label(), "brave");
}

#[test]
fn a_provider_without_a_key_is_an_error_not_a_silent_fallback() {
    let config = Config::default();
    let err = config.webtools.search.build("tavily", &no_env()).err().unwrap();
    let message = err.message();
    assert!(message.contains("TAVILY_API_KEY"), "{message}");
}

#[test]
fn searxng_needs_a_base_url() {
    let config = Config::default();
    assert!(config.webtools.search.build("searxng", &no_env()).is_err());
    let provider = sample().webtools.search.build("searxng", &no_env()).ok().unwrap();
    assert_eq!(provider.label(), "searxng");
}

#[test]
fn unknown_provider_names_are_rejected() {
    assert!(sample().webtools.search.build("altavista", &no_env()).is_err());
}

#[test]
fn debug_output_never_carries_a_key() {
    let entry = KeyEntry { api_key: Some("BSA-from-file".to_string()) };
    let shown = entry.debug_string();
    assert!(!shown.contains("BSA-from-file"), "leaked: {shown}");
    assert!(shown.contains("<redacted>"));
    let searx = SearxngEntry { base_url: Some("https://searx.internal".to_string()), api_key: Some("k".to_string()) };
    assert_eq!(
        searx.debug_string(),
        "SearxngEntry { base_url: Some(\"https://searx.internal\"), api_key: <redacted> }"
    );
}

#[test]
fn a_fallback_matching_the_primary_is_dropped() {
    let config = sample();
    let primary = Provider::Duckduckgo;
    assert!(matches!(config.webtools.search.resolve_fallback(&primary, &no_env()), Ok(None)));
}

#[test]
fn the_environment_outranks_the_file_and_a_blank_key_does_not_count() {
    let mut env = no_env();
    env.brave_api_key = Some("from-env".to_string());
    match sample().webtools.search.build("brave", &env) {
        Ok(Provider::Brave { api_key }) => assert_eq!(api_key, "from-env"),
        _ => panic!("expected a Brave provider"),
    }
    env.webtools_brave_api_key = Some("   ".to_string());
    match sample().webtools.search.build("brave", &env) {
        Ok(Provider::Brave { api_key }) => assert_eq!(api_key, "BSA-from-file"),
        _ => panic!("expected a Brave provider"),
    }
}

#[test]
fn the_primary_comes_from_the_flag_then_the_environment_then_the_file() {
    let config = sample();
    let mut env = no_env();
    env.search_provider = Some("ddg".to_string());
    assert!(matches!(config.webtools.search.resolve_primary(Some("Brave"), &env), Ok(Provider::Brave { .. })));
    assert!(matches!(config.webtools.search.resolve_primary(None, &env), Ok(Provider::Duckduckgo)));
    assert!(matches!(config.webtools.search.resolve_primary(None, &no_env()), Ok(Provider::Brave { .. })));
    assert!(matches!(Config::default().webtools.search.resolve_primary(None, &no_env()), Ok(Provider::Duckduckgo)));
    match config.webtools.search.resolve_primary(Some("altavista"), &env) {
        Err(e) => assert_eq!(e.message(), "unknown search provider `altavista`"),
        Ok(_) => panic!("expected an error"),
    }
}

#[test]
fn an_unusable_fallback_is_reported_and_none_means_none() {
    let mut env = no_env();
    env.search_fallback = Some("tavily".to_string());
    let search = Config::default().webtools.search;
    match search.resolve_fallback(&Provider::Duckduckgo, &env) {
        Err(ConfigError::MissingKey { provider, env_name }) => {
            assert_eq!(provider, "tavily");
            assert_eq!(env_name, "TAVILY_API_KEY");
        }
        _ => panic!("expected a missing key"),
    }
    env.search_fallback = Some(" NONE ".to_string());
    assert!(matches!(search.resolve_fallback(&Provider::Duckduckgo, &env), Ok(None)));
}

#[test]
fn the_config_file_is_found_by_variable_or_under_home() {
    assert_eq!(config_path(Some("/etc/wt.json"), Some("/home/u"), None), Some("/etc/wt.json".to_string()));
    assert_eq!(config_path(None, Some("/home/u"), None), Some("/home/u/.hoocode/settings.json".to_string()));
    assert_eq!(config_path(None, None, Some("C:/Users/u")), Some("C:/Users/u/.hoocode/settings.json".to_string()));
    assert_eq!(config_path(None, Some(""), Some("/x")), None);
}
