//! The command line's decisions: how flags combine with the settings file,
//! how a local body is decoded, and what a fetch or a search prints.
//!
//! Argument parsing, reading files and printing stay with the caller.

use vstd::prelude::*;

use crate::charset::{decode, decode_spec};
use crate::config::FetchConfig;
use crate::fetch::{meta_charset, sniff_meta_charset};
use crate::mcp::{continuation_text, push_continuation};
use crate::page::{body_converted, convert_body};
use crate::search::render_output;
use crate::search::types::SearchOutput;
use crate::text::{chars_vec, chars_eq_str, lower_seq, opt_chars, opt_str_chars, owned, push_char, push_str, to_ascii_lowercase};
use crate::tls::{paths_view, tls_config};
use crate::types::{content_type_of, status_note, ContentType, FetchOptions, FetchResult, Metadata};

verus! {

/// The safe-search switch a flag names: `on` or `strict` turn it on, `off`
/// or `none` turn it off, whatever the case; anything else leaves the
/// provider's default.
pub open spec fn safe_search_of(value: Option<Seq<char>>) -> Option<bool> {
    match value {
        Some(v) => {
            let l = lower_seq(v);
            if l == "on"@ || l == "strict"@ {
                Some(true)
            } else if l == "off"@ || l == "none"@ {
                Some(false)
            } else {
                None
            }
        },
        None => None,
    }
}

pub fn parse_safe_search(value: Option<&str>) -> (r: Option<bool>)
    ensures
        r == safe_search_of(opt_str_chars(value)),
{
    match value {
        Some(v) => {
            let l = to_ascii_lowercase(&chars_vec(v));
            if chars_eq_str(&l, "on") || chars_eq_str(&l, "strict") {
                Some(true)
            } else if chars_eq_str(&l, "off") || chars_eq_str(&l, "none") {
                Some(false)
            } else {
                None
            }
        },
        None => None,
    }
}

/// The options of a `fetch` command: each flag, else its setting in the
/// file, else the default (no cap, a 10 s timeout); the trust anchors of
/// the file, then those of the flags.
pub fn fetch_options(
    url: Option<String>,
    output: &str,
    max_tokens: Option<usize>,
    offset: usize,
    timeout: Option<u64>,
    ca_cert: Vec<String>,
    insecure: bool,
    cfg: &FetchConfig,
) -> (r: FetchOptions)
    ensures
        r.url@ == (match url {
            Some(u) => u@,
            None => Seq::<char>::empty(),
        }),
        r.content_type == content_type_of(output@),
        r.max_tokens == (match max_tokens {
            Some(m) => Some(m),
            None => cfg.max_tokens,
        }),
        r.offset == offset,
        r.timeout_secs == (match timeout {
            Some(t) => t,
            None => match cfg.timeout_secs {
                Some(t) => t,
                None => 10,
            },
        }),
        paths_view(r.tls.ca_certs@) == paths_view(cfg.ca_certs@) + paths_view(ca_cert@),
        r.tls.insecure == insecure,
        r.grep is None,
        !r.outline,
{
    FetchOptions {
        url: match url {
            Some(u) => u,
            None => String::new(),
        },
        content_type: ContentType::parse(output),
        max_tokens: match max_tokens {
            Some(m) => Some(m),
            None => cfg.max_tokens,
        },
        offset,
        timeout_secs: match timeout {
            Some(t) => t,
            None => match cfg.timeout_secs {
                Some(t) => t,
                None => 10,
            },
        },
        tls: tls_config(ca_cert, insecure, &cfg.ca_certs),
        grep: None,
        outline: false,
    }
}

/// Decode a local body with the charset its markup declares (there is no
/// header for a file): the text, and the declared charset when nothing here
/// decodes it.
pub fn decode_local(bytes: &[u8]) -> (r: (String, Option<String>))
    ensures
        r.0@ == decode_spec(bytes@, meta_charset(bytes@)).0,
        opt_chars(r.1) == decode_spec(bytes@, meta_charset(bytes@)).1,
{
    let declared = sniff_meta_charset(bytes);
    let label = match &declared {
        Some(d) => Some(d.as_str()),
        None => None,
    };
    decode(bytes, label)
}

/// Convert a local body as a fetch would, with the media sniffed and a
/// charset nothing could decode reported on the result.
pub fn convert_local(body: &str, base: &str, options: &FetchOptions, undecodable: Option<String>) -> (r: FetchResult)
    ensures
        exists|r0: FetchResult|
            #![auto]
            body_converted(body@, base@, None, *options, r0) && r == (match undecodable {
                Some(_) => FetchResult { metadata: Metadata { charset: undecodable, ..r0.metadata }, ..r0 },
                None => r0,
            }),
{
    let r0 = convert_body(body, base, None, options);
    let ghost g0 = r0;
    let mut result = r0;
    if undecodable.is_some() {
        result.metadata.charset = undecodable;
    }
    proof {
        assert(body_converted(body@, base@, None, *options, g0));
    }
    result
}

/// What a `fetch` prints on standard output: the title and the URL the
/// content came from, a blank line after them, the content, and where to
/// continue when the body goes on.
pub open spec fn printed_fetch(r: FetchResult) -> Seq<char> {
    let head = (if r.title@.len() > 0 {
        r.title@ + "\n"@
    } else {
        Seq::<char>::empty()
    }) + (if r.final_url@.len() > 0 {
        r.final_url@ + "\n"@
    } else {
        Seq::<char>::empty()
    });
    let head = if r.title@.len() > 0 || r.final_url@.len() > 0 {
        head + "\n"@
    } else {
        head
    };
    head + r.content@ + "\n"@ + match r.next_offset {
        Some(next) => "\n"@ + continuation_text(r, next, "--offset "@) + "\n"@,
        None => Seq::<char>::empty(),
    }
}

pub fn fetch_output(result: &FetchResult) -> (r: String)
    ensures
        r@ == printed_fetch(*result),
{
    let mut s = String::new();
    let has_title = !result.title.as_str().is_empty();
    let has_url = !result.final_url.as_str().is_empty();
    if has_title {
        push_str(&mut s, result.title.as_str());
        push_char(&mut s, '\n');
    }
    if has_url {
        push_str(&mut s, result.final_url.as_str());
        push_char(&mut s, '\n');
    }
    if has_title || has_url {
        push_char(&mut s, '\n');
    }
    push_str(&mut s, result.content.as_str());
    push_char(&mut s, '\n');
    if let Some(next) = result.next_offset {
        push_char(&mut s, '\n');
        push_continuation(&mut s, result, next, "--offset ");
        push_char(&mut s, '\n');
    }
    proof {
        reveal_strlit("\n");
        assert(s@ =~= printed_fetch(*result));
    }
    s
}

/// What a `fetch` reports on standard error: why nothing was extracted, and
/// a charset the page declared that nothing here decodes.
pub open spec fn fetch_notes_of(r: FetchResult) -> Seq<Seq<char>> {
    (match status_note(r.status) {
        Some(n) => seq!["webtools: "@ + n],
        None => Seq::<Seq<char>>::empty(),
    }) + match r.metadata.charset {
        Some(c) => seq![
            "webtools: warning: page declares charset "@ + c@
                + "; it was decoded as UTF-8 and may be garbled"@,
        ],
        None => Seq::<Seq<char>>::empty(),
    }
}

pub fn fetch_notes(result: &FetchResult) -> (r: Vec<String>)
    ensures
        crate::json::strings_view(r@) == fetch_notes_of(*result),
{
    let mut out: Vec<String> = Vec::new();
    if let Some(n) = result.status.note() {
        let mut s = owned("webtools: ");
        push_str(&mut s, n);
        out.push(s);
    }
    if let Some(c) = &result.metadata.charset {
        let mut s = owned("webtools: warning: page declares charset ");
        push_str(&mut s, c.as_str());
        push_str(&mut s, "; it was decoded as UTF-8 and may be garbled");
        out.push(s);
    }
    proof {
        assert(crate::json::strings_view(out@) =~= fetch_notes_of(*result));
    }
    out
}

/// What a `search` prints: its rendering, when there is any.
pub fn search_output(output: &SearchOutput) -> (r: Option<String>)
    ensures
        match r {
            Some(s) => s@ == crate::search::output_text(
                output.results@,
                output.references@,
                crate::search::note_of(output.status, output.query@, output.provider@),
            ) && s@.len() > 0,
            None => crate::search::output_text(
                output.results@,
                output.references@,
                crate::search::note_of(output.status, output.query@, output.provider@),
            ).len() == 0,
        },
{
    let rendered = render_output(output);
    if rendered.as_str().is_empty() {
        None
    } else {
        Some(rendered)
    }
}

/// A search that did not answer fails the command: exiting successfully is
/// what made a rate-limited search look like an empty one.
pub fn search_succeeded(output: &SearchOutput) -> (r: bool)
    ensures
        r == !(output.status is Blocked),
{
    !output.status.is_failure()
}

} // verus!
