//! The fetch path's public types: what a fetch returns and what it is asked.

use vstd::prelude::*;

use crate::grep::Match;
use crate::outline::Section;
use crate::refs::Referable;
use crate::text::{lower_seq, opt_str_chars, chars_vec, to_ascii_lowercase, chars_eq_str};
pub use crate::tls::TlsConfig;

verus! {

/// Whether a fetch actually produced content.
#[derive(Debug, Clone, Copy, PartialEq, Eq, Structural)]
pub enum ContentStatus {
    /// Content was extracted.
    Success,
    /// The document parsed but genuinely holds no text.
    Empty,
    /// An HTML shell with scripts and no text: the content is rendered by
    /// JavaScript, which this fetcher does not run.
    NeedsJs,
    /// The document was too deeply nested to parse within a sane time budget
    /// and was refused before parsing.
    TooComplex,
}

/// The explanation attached to each status.
pub open spec fn status_note(s: ContentStatus) -> Option<Seq<char>> {
    match s {
        ContentStatus::Success => None,
        ContentStatus::Empty => Some("the page parsed but contains no text"@),
        ContentStatus::NeedsJs => Some(
            "no text content: the page renders its body with JavaScript, which webtools does not execute"@,
        ),
        ContentStatus::TooComplex => Some(
            "the document is too deeply nested to parse safely and was refused"@,
        ),
    }
}

impl ContentStatus {
    /// Did extraction fail to produce usable content?
    pub fn is_failure(self) -> (r: bool)
        ensures
            r == !(self is Success),
    {
        !matches!(self, ContentStatus::Success)
    }

    /// A one-line explanation, or `None` when content came back normally.
    pub fn note(self) -> (r: Option<&'static str>)
        ensures
            opt_str_chars(r) == status_note(self),
    {
        match self {
            ContentStatus::Success => None,
            ContentStatus::Empty => Some("the page parsed but contains no text"),
            ContentStatus::NeedsJs => Some(
                "no text content: the page renders its body with JavaScript, which webtools does not execute",
            ),
            ContentStatus::TooComplex => Some(
                "the document is too deeply nested to parse safely and was refused",
            ),
        }
    }
}

/// Result of fetching and converting a web page.
#[derive(Debug, Clone)]
pub struct FetchResult {
    pub title: String,
    /// The URL the content actually came from, after redirects.
    pub final_url: String,
    pub content: String,
    pub content_type: ContentType,
    /// The detected source media kind: "html", "json", "text", or a raw
    /// content-type for anything not rendered.
    pub media: String,
    pub token_estimate: usize,
    /// Estimated tokens of the whole extracted body, ignoring budget and offset.
    pub total_token_estimate: usize,
    /// Size of the whole extracted body in bytes, the space offsets index into.
    pub total_bytes: usize,
    /// Byte offset the returned content starts at.
    pub offset: usize,
    /// Byte offset to resume from, or `None` when the body ended here.
    pub next_offset: Option<usize>,
    /// Whether the body continues past this window.
    pub truncated: bool,
    /// Headings of the page, when an outline was asked for.
    pub outline: Vec<Section>,
    /// Hits of a search pattern, when one was given.
    pub matches: Vec<Match>,
    /// Whether content was extracted.
    pub status: ContentStatus,
    /// References cited by `content`.
    pub references: Vec<UrlReference>,
    pub metadata: Metadata,
    /// The URL that was requested, before any redirect.
    pub source: String,
}

/// Citation-oriented page metadata, all best-effort.
#[derive(Debug, Clone, PartialEq, Eq)]
pub struct Metadata {
    pub description: Option<String>,
    pub author: Option<String>,
    pub published: Option<String>,
    pub lang: Option<String>,
    pub site_name: Option<String>,
    /// The document's declared character set, when no decoder here matches
    /// it, so the text may be garbled.
    pub charset: Option<String>,
}

impl Default for Metadata {
    fn default() -> (r: Self)
        ensures
            r.description is None,
            r.author is None,
            r.published is None,
            r.lang is None,
            r.site_name is None,
            r.charset is None,
    {
        Metadata {
            description: None,
            author: None,
            published: None,
            lang: None,
            site_name: None,
            charset: None,
        }
    }
}

/// A single preserved URL, recoverable by its `index`.
#[derive(Debug, Clone, PartialEq, Eq)]
pub struct UrlReference {
    pub index: usize,
    pub url: String,
    /// The anchor text the link was attached to (best-effort).
    pub text: String,
}

/// The content of a [`UrlReference`].
pub struct UrlRefV {
    pub index: usize,
    pub url: Seq<char>,
    pub text: Seq<char>,
}

impl View for UrlReference {
    type V = UrlRefV;

    open spec fn view(&self) -> UrlRefV {
        UrlRefV { index: self.index, url: self.url@, text: self.text@ }
    }
}

/// The contents of a list of references.
pub open spec fn urefs_view(v: Seq<UrlReference>) -> Seq<UrlRefV> {
    v.map_values(|r: UrlReference| r@)
}

impl UrlReference {
    /// A copy with the same contents.
    pub fn duplicate(&self) -> (r: UrlReference)
        ensures
            r@ == self@,
    {
        UrlReference { index: self.index, url: self.url.clone(), text: self.text.clone() }
    }
}

impl Referable for UrlReference {
    open spec fn ref_index(&self) -> usize {
        self.index
    }

    open spec fn ref_url(&self) -> Seq<char> {
        self.url@
    }

    fn index(&self) -> (r: usize) {
        self.index
    }

    fn url(&self) -> (r: &str) {
        self.url.as_str()
    }
}

/// Output format of a fetch.
#[derive(Debug, Clone, Copy, PartialEq, Eq, Structural)]
pub enum ContentType {
    Text,
    Markdown,
    Structured,
}

/// The format a name selects, compared case-insensitively; anything
/// unrecognised is text.
pub open spec fn content_type_of(s: Seq<char>) -> ContentType {
    let l = lower_seq(s);
    if l == "markdown"@ || l == "md"@ {
        ContentType::Markdown
    } else if l == "structured"@ || l == "json"@ {
        ContentType::Structured
    } else {
        ContentType::Text
    }
}

impl ContentType {
    /// Parse a format name ("text" | "markdown" | "structured").
    pub fn parse(s: &str) -> (r: Self)
        ensures
            r == content_type_of(s@),
    {
        let l = to_ascii_lowercase(&chars_vec(s));
        if chars_eq_str(&l, "markdown") || chars_eq_str(&l, "md") {
            ContentType::Markdown
        } else if chars_eq_str(&l, "structured") || chars_eq_str(&l, "json") {
            ContentType::Structured
        } else {
            ContentType::Text
        }
    }
}

/// What a fetch is asked to do.
#[derive(Debug, Clone)]
pub struct FetchOptions {
    pub url: String,
    pub content_type: ContentType,
    pub max_tokens: Option<usize>,
    /// Byte offset into the extracted text to start from.
    pub offset: usize,
    pub timeout_secs: u64,
    /// TLS trust configuration.
    pub tls: TlsConfig,
    /// A pattern to search the page for instead of reading it.
    pub grep: Option<String>,
    /// Return the page's outline instead of its text.
    pub outline: bool,
}

impl Default for FetchOptions {
    fn default() -> (r: Self)
        ensures
            r.url@.len() == 0,
            r.content_type == ContentType::Text,
            r.max_tokens is None,
            r.offset == 0,
            r.timeout_secs == 10,
            r.tls.ca_certs@.len() == 0,
            !r.tls.insecure,
            r.grep is None,
            !r.outline,
    {
        FetchOptions {
            url: String::new(),
            content_type: ContentType::Text,
            max_tokens: None,
            offset: 0,
            timeout_secs: 10,
            tls: TlsConfig::default(),
            grep: None,
            outline: false,
        }
    }
}

/// Parse a content-type string ("text" | "markdown" | "structured").
pub fn parse_content_type(s: &str) -> (r: ContentType)
    ensures
        r == content_type_of(s@),
{
    ContentType::parse(s)
}

} // verus!
