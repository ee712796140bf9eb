//! Types for the web-search layer.

use vstd::prelude::*;

pub use crate::refs::Reference;
pub use crate::tls::TlsConfig;
pub use crate::search::providers::Provider;

verus! {

/// A single search hit, carrying its reference index so the inline body can
/// cite `[N]` while the full URL lives in the reference block.
#[derive(Debug, Clone, PartialEq, Eq)]
pub struct SearchResult {
    pub title: String,
    pub snippet: String,
    pub url: String,
    pub ref_index: usize,
}

/// Whether a search actually answered.
#[derive(Debug, Clone, Copy, PartialEq, Eq, Structural)]
pub enum SearchStatus {
    /// Results were parsed.
    Success,
    /// A real results page that reported no hits.
    Empty,
    /// A challenge, rate-limit, or otherwise unparseable page. A failure.
    Blocked,
}

impl SearchStatus {
    /// Did the search fail to answer?
    pub fn is_failure(self) -> (r: bool)
        ensures
            r == (self is Blocked),
    {
        matches!(self, SearchStatus::Blocked)
    }
}

/// What a search returns.
#[derive(Debug, Clone)]
pub struct SearchOutput {
    pub query: String,
    pub results: Vec<SearchResult>,
    pub references: Vec<Reference>,
    pub token_estimate: usize,
    pub result_count: usize,
    /// Whether the search answered.
    pub status: SearchStatus,
    /// Which backend produced these results.
    pub provider: String,
}

/// What a search is asked to do.
pub struct SearchOptions {
    pub query: String,
    pub max_results: Option<usize>,
    pub safe_search: Option<bool>,
    pub timeout_secs: u64,
    /// TLS trust configuration.
    pub tls: TlsConfig,
    /// Which backend to query.
    pub provider: Provider,
    /// Backend to try when the primary errors or is blocked.
    pub fallback: Option<Provider>,
}

impl Default for SearchOptions {
    fn default() -> (r: Self)
        ensures
            r.query@.len() == 0,
            r.max_results == Some(5usize),
            r.safe_search is None,
            r.timeout_secs == 10,
            r.tls.ca_certs@.len() == 0,
            !r.tls.insecure,
            r.provider is Duckduckgo,
            r.fallback is None,
    {
        SearchOptions {
            query: String::new(),
            max_results: Some(5),
            safe_search: None,
            timeout_secs: 10,
            tls: TlsConfig::default(),
            provider: Provider::Duckduckgo,
            fallback: None,
        }
    }
}

} // verus!
