//! Settings from the `webtools` section of `settings.json`, and how they
//! combine with the environment into search providers.
//!
//! Precedence, highest first: command-line flag, environment variable,
//! config file, built-in default. The caller reads the file and the
//! environment and hands both in as plain values.

use vstd::prelude::*;

use crate::cache::path_join;
use crate::search::providers::{debug_quoted, debug_str, provider_label, provider_name, Provider};
use crate::text::{chars_vec, lower_seq, opt_chars, opt_str_chars, owned, push_str, str_eq, to_ascii_lowercase, trim, trim_str};

verus! {

/// The `webtools` section of `settings.json`.
pub struct Config {
    pub webtools: WebtoolsConfig,
}

pub struct WebtoolsConfig {
    pub search: SearchConfig,
    pub fetch: FetchConfig,
}

pub struct SearchConfig {
    /// Provider name to use by default (`brave`, `tavily`, `searxng`,
    /// `duckduckgo`).
    pub provider: Option<String>,
    /// Provider to fall back to when the primary fails or is blocked.
    pub fallback: Option<String>,
    /// Credentials and endpoints, keyed by provider name.
    pub providers: ProviderCredentials,
}

pub struct ProviderCredentials {
    pub brave: Option<KeyEntry>,
    pub tavily: Option<KeyEntry>,
    pub searxng: Option<SearxngEntry>,
}

pub struct KeyEntry {
    pub api_key: Option<String>,
}

pub struct SearxngEntry {
    pub base_url: Option<String>,
    pub api_key: Option<String>,
}

pub struct FetchConfig {
    pub timeout_secs: Option<u64>,
    pub max_tokens: Option<usize>,
    /// Extra PEM trust anchors, the config-file equivalent of `--ca-cert`.
    pub ca_certs: Vec<String>,
    /// How long a fetched page stays cached, in seconds; `0` disables the
    /// cache.
    pub cache_ttl_secs: Option<u64>,
}

impl Default for Config {
    fn default() -> (r: Self)
        ensures
            r.webtools.search.provider is None,
            r.webtools.search.fallback is None,
            r.webtools.search.providers.brave is None,
            r.webtools.search.providers.tavily is None,
            r.webtools.search.providers.searxng is None,
            r.webtools.fetch.timeout_secs is None,
            r.webtools.fetch.max_tokens is None,
            r.webtools.fetch.ca_certs@.len() == 0,
            r.webtools.fetch.cache_ttl_secs is None,
    {
        Config { webtools: WebtoolsConfig::default() }
    }
}

impl Default for WebtoolsConfig {
    fn default() -> (r: Self)
        ensures
            r.search.provider is None,
            r.search.fallback is None,
            r.search.providers.brave is None,
            r.search.providers.tavily is None,
            r.search.providers.searxng is None,
            r.fetch.timeout_secs is None,
            r.fetch.max_tokens is None,
            r.fetch.ca_certs@.len() == 0,
            r.fetch.cache_ttl_secs is None,
    {
        WebtoolsConfig { search: SearchConfig::default(), fetch: FetchConfig::default() }
    }
}

impl Default for SearchConfig {
    fn default() -> (r: Self)
        ensures
            r.provider is None,
            r.fallback is None,
            r.providers.brave is None,
            r.providers.tavily is None,
            r.providers.searxng is None,
    {
        SearchConfig { provider: None, fallback: None, providers: ProviderCredentials::default() }
    }
}

impl Default for ProviderCredentials {
    fn default() -> (r: Self)
        ensures
            r.brave is None,
            r.tavily is None,
            r.searxng is None,
    {
        ProviderCredentials { brave: None, tavily: None, searxng: None }
    }
}

impl Default for KeyEntry {
    fn default() -> (r: Self)
        ensures
            r.api_key is None,
    {
        KeyEntry { api_key: None }
    }
}

impl Default for SearxngEntry {
    fn default() -> (r: Self)
        ensures
            r.base_url is None,
            r.api_key is None,
    {
        SearxngEntry { base_url: None, api_key: None }
    }
}

impl Default for FetchConfig {
    fn default() -> (r: Self)
        ensures
            r.timeout_secs is None,
            r.max_tokens is None,
            r.ca_certs@.len() == 0,
            r.cache_ttl_secs is None,
    {
        FetchConfig { timeout_secs: None, max_tokens: None, ca_certs: Vec::new(), cache_ttl_secs: None }
    }
}

/// Whether a key is set: redacted, never shown.
pub open spec fn key_shown(k: Option<String>) -> Seq<char> {
    if k is Some {
        "<redacted>"@
    } else {
        "None"@
    }
}

/// Rust's debug rendering of an optional string.
pub open spec fn debug_option(o: Option<Seq<char>>) -> Seq<char> {
    match o {
        Some(s) => "Some("@ + debug_quoted(s) + ")"@,
        None => "None"@,
    }
}

fn push_key_shown(s: &mut String, k: &Option<String>)
    ensures
        final(s)@ == old(s)@ + key_shown(*k),
{
    if k.is_some() {
        push_str(s, "<redacted>");
    } else {
        push_str(s, "None");
    }
}

impl KeyEntry {
    /// The debug rendering, which never carries the key.
    pub fn debug_string(&self) -> (r: String)
        ensures
            r@ == "KeyEntry { api_key: "@ + key_shown(self.api_key) + " }"@,
    {
        let mut s = owned("KeyEntry { api_key: ");
        push_key_shown(&mut s, &self.api_key);
        push_str(&mut s, " }");
        s
    }
}

impl SearxngEntry {
    /// The debug rendering: the instance URL as it is, the key redacted.
    pub fn debug_string(&self) -> (r: String)
        ensures
            r@ == "SearxngEntry { base_url: "@ + debug_option(opt_chars(self.base_url)) + ", api_key: "@
                + key_shown(self.api_key) + " }"@,
    {
        let mut s = owned("SearxngEntry { base_url: ");
        match &self.base_url {
            Some(u) => {
                push_str(&mut s, "Some(");
                let q = debug_str(u.as_str());
                push_str(&mut s, q.as_str());
                push_str(&mut s, ")");
            },
            None => push_str(&mut s, "None"),
        }
        push_str(&mut s, ", api_key: ");
        push_key_shown(&mut s, &self.api_key);
        push_str(&mut s, " }");
        s
    }
}

/// Where the config file is: `HOOCODE_CONFIG` when set, else
/// `.hoocode/settings.json` under the home directory (`HOME`, else
/// `USERPROFILE`, when that is not empty).
pub open spec fn config_path_of(
    explicit: Option<Seq<char>>,
    home: Option<Seq<char>>,
    userprofile: Option<Seq<char>>,
) -> Option<Seq<char>> {
    match explicit {
        Some(p) => Some(p),
        None => {
            let h = match home {
                Some(h) => Some(h),
                None => userprofile,
            };
            match h {
                Some(h) => if h.len() > 0 {
                    Some(path_join(h, ".hoocode/settings.json"@))
                } else {
                    None
                },
                None => None,
            }
        },
    }
}

/// Where the config file would be, given `HOOCODE_CONFIG`, `HOME` and
/// `USERPROFILE`.
pub fn config_path(explicit: Option<&str>, home: Option<&str>, userprofile: Option<&str>) -> (r: Option<String>)
    ensures
        opt_chars(r) == config_path_of(opt_str_chars(explicit), opt_str_chars(home), opt_str_chars(userprofile)),
{
    if let Some(p) = explicit {
        return Some(owned(p));
    }
    let h = match home {
        Some(h) => Some(h),
        None => userprofile,
    };
    match h {
        Some(h) => {
            if h.is_empty() {
                None
            } else {
                Some(crate::cache::join_path(h, ".hoocode/settings.json"))
            }
        },
        None => None,
    }
}

/// The environment variables that name providers and carry credentials.
pub struct ProviderEnv {
    /// `WEBTOOLS_BRAVE_API_KEY`.
    pub webtools_brave_api_key: Option<String>,
    /// `BRAVE_API_KEY`.
    pub brave_api_key: Option<String>,
    /// `WEBTOOLS_TAVILY_API_KEY`.
    pub webtools_tavily_api_key: Option<String>,
    /// `TAVILY_API_KEY`.
    pub tavily_api_key: Option<String>,
    /// `WEBTOOLS_SEARXNG_URL`.
    pub searxng_url: Option<String>,
    /// `WEBTOOLS_SEARXNG_API_KEY`.
    pub searxng_api_key: Option<String>,
    /// `WEBTOOLS_SEARCH_PROVIDER`.
    pub search_provider: Option<String>,
    /// `WEBTOOLS_SEARCH_FALLBACK`.
    pub search_fallback: Option<String>,
}

/// A credential from the environment: the first of the variables that is
/// set, provided it is not blank.
pub open spec fn env_key_of(first: Option<Seq<char>>, second: Option<Seq<char>>) -> Option<Seq<char>> {
    let v = match first {
        Some(a) => Some(a),
        None => second,
    };
    match v {
        Some(k) => if trim(k).len() > 0 {
            Some(k)
        } else {
            None
        },
        None => None,
    }
}

fn env_key(first: &Option<String>, second: &Option<String>) -> (r: Option<String>)
    ensures
        opt_chars(r) == env_key_of(opt_chars(*first), opt_chars(*second)),
{
    let v = match first {
        Some(a) => Some(a),
        None => match second {
            Some(b) => Some(b),
            None => None,
        },
    };
    match v {
        Some(k) => {
            if trim_str(k.as_str()).as_str().is_empty() {
                None
            } else {
                Some(owned(k.as_str()))
            }
        },
        None => None,
    }
}

/// Why a provider could not be set up.
pub enum ConfigError {
    /// A keyed provider was asked for by name with no key anywhere.
    MissingKey { provider: &'static str, env_name: &'static str },
    /// SearXNG was asked for with no instance URL.
    MissingBaseUrl,
    /// `build` was given a name that is no provider.
    UnknownProvider(String),
    /// A requested provider name that does not parse.
    UnknownName(String),
}

/// The message of each error.
pub open spec fn error_text(e: ConfigError) -> Seq<char> {
    match e {
        ConfigError::MissingKey { provider, env_name } => provider@ + " needs an API key: set "@ + env_name@
            + ", or webtools.search.providers."@ + provider@ + ".api_key in the config file"@,
        ConfigError::MissingBaseUrl => "searxng needs a base_url: set WEBTOOLS_SEARXNG_URL, or webtools.search.providers.searxng.base_url in the config file"@,
        ConfigError::UnknownProvider(other) => "unknown search provider `"@ + other@
            + "` (expected duckduckgo, brave, tavily, or searxng)"@,
        ConfigError::UnknownName(requested) => "unknown search provider `"@ + requested@ + "`"@,
    }
}

impl ConfigError {
    /// The error as a sentence for the user.
    pub fn message(&self) -> (r: String)
        ensures
            r@ == error_text(*self),
    {
        match self {
            ConfigError::MissingKey { provider, env_name } => {
                let mut s = owned(provider);
                push_str(&mut s, " needs an API key: set ");
                push_str(&mut s, env_name);
                push_str(&mut s, ", or webtools.search.providers.");
                push_str(&mut s, provider);
                push_str(&mut s, ".api_key in the config file");
                s
            },
            ConfigError::MissingBaseUrl => owned(
                "searxng needs a base_url: set WEBTOOLS_SEARXNG_URL, or webtools.search.providers.searxng.base_url in the config file",
            ),
            ConfigError::UnknownProvider(other) => {
                let mut s = owned("unknown search provider `");
                push_str(&mut s, other.as_str());
                push_str(&mut s, "` (expected duckduckgo, brave, tavily, or searxng)");
                s
            },
            ConfigError::UnknownName(requested) => {
                let mut s = owned("unknown search provider `");
                push_str(&mut s, requested.as_str());
                push_str(&mut s, "`");
                s
            },
        }
    }
}

pub open spec fn or_else(a: Option<Seq<char>>, b: Option<Seq<char>>) -> Option<Seq<char>> {
    match a {
        Some(x) => Some(x),
        None => b,
    }
}

pub open spec fn key_of(e: Option<KeyEntry>) -> Option<Seq<char>> {
    match e {
        Some(k) => opt_chars(k.api_key),
        None => None,
    }
}

/// What `build` makes of a name: DuckDuckGo needs nothing; Brave and Tavily
/// need a key, from the environment first and the file second; SearXNG
/// needs an instance URL the same way and takes an optional key; any other
/// name is refused.
pub open spec fn built(cfg: SearchConfig, env: ProviderEnv, name: Seq<char>, r: Result<Provider, ConfigError>) -> bool {
    if name == "duckduckgo"@ {
        r matches Ok(Provider::Duckduckgo)
    } else if name == "brave"@ {
        match or_else(env_key_of(opt_chars(env.webtools_brave_api_key), opt_chars(env.brave_api_key)), key_of(cfg.providers.brave)) {
            Some(k) => r matches Ok(Provider::Brave { api_key }) && api_key@ == k,
            None => r matches Err(ConfigError::MissingKey { provider, env_name }) && provider@ == "brave"@
                && env_name@ == "BRAVE_API_KEY"@,
        }
    } else if name == "tavily"@ {
        match or_else(env_key_of(opt_chars(env.webtools_tavily_api_key), opt_chars(env.tavily_api_key)), key_of(cfg.providers.tavily)) {
            Some(k) => r matches Ok(Provider::Tavily { api_key }) && api_key@ == k,
            None => r matches Err(ConfigError::MissingKey { provider, env_name }) && provider@ == "tavily"@
                && env_name@ == "TAVILY_API_KEY"@,
        }
    } else if name == "searxng"@ {
        let file_url = match cfg.providers.searxng {
            Some(e) => opt_chars(e.base_url),
            None => None,
        };
        let file_key = match cfg.providers.searxng {
            Some(e) => opt_chars(e.api_key),
            None => None,
        };
        match or_else(env_key_of(opt_chars(env.searxng_url), None), file_url) {
            Some(u) => r matches Ok(Provider::Searxng { base_url, api_key }) && base_url@ == u
                && opt_chars(api_key) == or_else(env_key_of(opt_chars(env.searxng_api_key), None), file_key),
            None => r matches Err(ConfigError::MissingBaseUrl),
        }
    } else {
        r matches Err(ConfigError::UnknownProvider(other)) && other@ == name
    }
}

fn copy_opt(o: &Option<String>) -> (r: Option<String>)
    ensures
        opt_chars(r) == opt_chars(*o),
{
    match o {
        Some(s) => Some(owned(s.as_str())),
        None => None,
    }
}

fn file_key(e: &Option<KeyEntry>) -> (r: Option<String>)
    ensures
        opt_chars(r) == key_of(*e),
{
    match e {
        Some(k) => copy_opt(&k.api_key),
        None => None,
    }
}

fn first_of(a: Option<String>, b: Option<String>) -> (r: Option<String>)
    ensures
        opt_chars(r) == or_else(opt_chars(a), opt_chars(b)),
{
    match a {
        Some(x) => Some(x),
        None => b,
    }
}

impl SearchConfig {
    /// Build a provider by name, pulling its credential from the environment
    /// first and the config file second. A provider asked for by name with
    /// no key is an error, never a quiet switch to another engine.
    pub fn build(&self, name: &str, env: &ProviderEnv) -> (r: Result<Provider, ConfigError>)
        ensures
            built(*self, *env, name@, r),
    {
        proof {
            reveal_strlit("duckduckgo");
            reveal_strlit("brave");
            reveal_strlit("tavily");
            reveal_strlit("searxng");
        }
        if str_eq(name, "duckduckgo") {
            Ok(Provider::Duckduckgo)
        } else if str_eq(name, "brave") {
            let k = first_of(env_key(&env.webtools_brave_api_key, &env.brave_api_key), file_key(&self.providers.brave));
            match k {
                Some(api_key) => Ok(Provider::Brave { api_key }),
                None => Err(ConfigError::MissingKey { provider: "brave", env_name: "BRAVE_API_KEY" }),
            }
        } else if str_eq(name, "tavily") {
            let k = first_of(env_key(&env.webtools_tavily_api_key, &env.tavily_api_key), file_key(&self.providers.tavily));
            match k {
                Some(api_key) => Ok(Provider::Tavily { api_key }),
                None => Err(ConfigError::MissingKey { provider: "tavily", env_name: "TAVILY_API_KEY" }),
            }
        } else if str_eq(name, "searxng") {
            let (file_url, file_api_key) = match &self.providers.searxng {
                Some(e) => (copy_opt(&e.base_url), copy_opt(&e.api_key)),
                None => (None, None),
            };
            let url = first_of(env_key(&env.searxng_url, &None), file_url);
            match url {
                Some(base_url) => {
                    let api_key = first_of(env_key(&env.searxng_api_key, &None), file_api_key);
                    Ok(Provider::Searxng { base_url, api_key })
                },
                None => Err(ConfigError::MissingBaseUrl),
            }
        } else {
            Err(ConfigError::UnknownProvider(owned(name)))
        }
    }

    /// Resolve the primary provider: the flag, then the environment, then
    /// the config file, then keyless DuckDuckGo. A name that does not parse
    /// is refused.
    pub fn resolve_primary(&self, flag: Option<&str>, env: &ProviderEnv) -> (r: Result<Provider, ConfigError>)
        ensures
            ({
                let requested = or_else(
                    or_else(opt_str_chars(flag), opt_chars(env.search_provider)),
                    opt_chars(self.provider),
                );
                match requested {
                    None => r matches Ok(Provider::Duckduckgo),
                    Some(q) => match provider_name(q) {
                        None => r matches Err(ConfigError::UnknownName(s)) && s@ == q,
                        Some(n) => built(*self, *env, n, r),
                    },
                }
            }),
    {
        let requested = match flag {
            Some(f) => Some(owned(f)),
            None => first_of(copy_opt(&env.search_provider), copy_opt(&self.provider)),
        };
        match requested {
            None => Ok(Provider::Duckduckgo),
            Some(q) => match Provider::parse_name(q.as_str()) {
                None => Err(ConfigError::UnknownName(q)),
                Some(n) => self.build(n, env),
            },
        }
    }

    /// Resolve the fallback provider. `none` (any case) means no fallback, as
    /// does a name that does not parse or names the primary. A fallback that
    /// cannot be built is an error the caller reports as a warning before
    /// going on without one: it is a safety net, not what was asked for.
    pub fn resolve_fallback(&self, primary: &Provider, env: &ProviderEnv) -> (r: Result<Option<Provider>, ConfigError>)
        ensures
            ({
                let requested = or_else(opt_chars(env.search_fallback), opt_chars(self.fallback));
                match requested {
                    None => r matches Ok(None),
                    Some(q) => if lower_seq(trim(q)) == "none"@ {
                        r matches Ok(None)
                    } else {
                        match provider_name(q) {
                            None => r matches Ok(None),
                            Some(n) => if n == provider_label(*primary) {
                                r matches Ok(None)
                            } else {
                                exists|b: Result<Provider, ConfigError>|
                                    built(*self, *env, n, b) && match b {
                                        Ok(p) => r == Ok::<Option<Provider>, ConfigError>(Some(p)),
                                        Err(e) => r == Err::<Option<Provider>, ConfigError>(e),
                                    }
                            },
                        }
                    },
                }
            }),
    {
        let requested = first_of(copy_opt(&env.search_fallback), copy_opt(&self.fallback));
        let q = match requested {
            None => {
                return Ok(None);
            },
            Some(q) => q,
        };
        let l = to_ascii_lowercase(&chars_vec(trim_str(q.as_str()).as_str()));
        if crate::text::chars_eq_str(&l, "none") {
            return Ok(None);
        }
        let n = match Provider::parse_name(q.as_str()) {
            None => {
                return Ok(None);
            },
            Some(n) => n,
        };
        if str_eq(n, primary.label()) {
            return Ok(None);
        }
        let b = self.build(n, env);
        let ghost gb = b;
        match b {
            Ok(p) => Ok(Some(p)),
            Err(e) => Err(e),
        }
    }
}

} // verus!
