//! Web search with reference-style URL preservation: each hit's title
//! carries an inline `[N]` marker and the full URLs are collected into a
//! reference block.

pub mod types;
pub mod providers;
pub mod extract;

use vstd::prelude::*;

use crate::compress::{estimate_tokens, tokens};
use crate::refs::{assemble, assemble_spec, block, render_block, Reference};
use crate::text::{bytes_of, decimal, owned, push_char, push_str, usize_to_string};
use types::{SearchOutput, SearchResult, SearchStatus};

verus! {

/// The reference entries of a list of results, in order.
pub open spec fn refs_of(rs: Seq<SearchResult>) -> Seq<(usize, Seq<char>)> {
    rs.map_values(|r: SearchResult| (r.ref_index, r.url@))
}

/// The index and URL of each reference.
pub open spec fn ref_pairs(rs: Seq<Reference>) -> Seq<(usize, Seq<char>)> {
    rs.map_values(|r: Reference| (r.index, r.url@))
}

/// Build the reference block (index → URL) from parsed results.
pub fn build_refs(results: &[SearchResult]) -> (r: Vec<Reference>)
    ensures
        ref_pairs(r@) == refs_of(results@),
{
    let mut out: Vec<Reference> = Vec::new();
    let mut i: usize = 0;
    while i < results.len()
        invariant
            i <= results@.len(),
            ref_pairs(out@) =~= refs_of(results@.take(i as int)),
        decreases results.len() - i,
    {
        let ghost before = out@;
        let item = Reference { index: results[i].ref_index, url: results[i].url.clone() };
        out.push(item);
        proof {
            let r = results@[i as int];
            assert(results@.take(i + 1) == results@.take(i as int).push(r));
            assert(ref_pairs(before.push(item)) =~= ref_pairs(before).push((item.index, item.url@)));
            assert(refs_of(results@.take(i as int).push(r)) =~= refs_of(results@.take(i as int)).push(
                (r.ref_index, r.url@),
            ));
        }
        i += 1;
    }
    proof {
        assert(results@.take(results@.len() as int) =~= results@);
    }
    out
}

/// One hit: `title [N]`, then its snippet on the next line when it has one.
pub open spec fn result_entry(r: SearchResult) -> Seq<char> {
    let head = r.title@ + " ["@ + decimal(r.ref_index as nat) + "]"@;
    if r.snippet@.len() == 0 {
        head
    } else {
        head + "\n"@ + r.snippet@
    }
}

/// The entries of every hit, separated by blank lines.
pub open spec fn results_text(rs: Seq<SearchResult>) -> Seq<char>
    decreases rs.len(),
{
    if rs.len() == 0 {
        Seq::<char>::empty()
    } else if rs.len() == 1 {
        result_entry(rs[0])
    } else {
        results_text(rs.drop_last()) + "\n\n"@ + result_entry(rs.last())
    }
}

fn push_entry(s: &mut String, r: &SearchResult)
    ensures
        final(s)@ == old(s)@ + result_entry(*r),
{
    push_str(s, r.title.as_str());
    push_str(s, " [");
    let n = usize_to_string(r.ref_index);
    push_str(s, n.as_str());
    push_char(s, ']');
    if !r.snippet.as_str().is_empty() {
        push_char(s, '\n');
        push_str(s, r.snippet.as_str());
    }
    proof {
        reveal_strlit(" [");
        reveal_strlit("]");
        reveal_strlit("\n");
        assert(final(s)@ =~= old(s)@ + result_entry(*r));
    }
}

/// Render the inline body: each result as `title [N]` followed by its
/// snippet. URLs are absent here; they live in the reference block.
pub fn format_results(results: &[SearchResult]) -> (r: String)
    ensures
        r@ == results_text(results@),
{
    let mut s = String::new();
    let mut i: usize = 0;
    while i < results.len()
        invariant
            i <= results@.len(),
            s@ == results_text(results@.take(i as int)),
        decreases results.len() - i,
    {
        let ghost before = s@;
        if i > 0 {
            push_str(&mut s, "\n\n");
        }
        push_entry(&mut s, &results[i]);
        proof {
            let t = results@.take(i + 1);
            assert(t.drop_last() =~= results@.take(i as int));
            assert(t.last() == results@[i as int]);
            if i == 0 {
                assert(before =~= Seq::<char>::empty());
                assert(s@ =~= result_entry(t[0]));
            }
        }
        i += 1;
    }
    proof {
        assert(results@.take(results@.len() as int) =~= results@);
    }
    s
}

/// Render the reference block appended to text output.
pub fn render_references(refs: &[Reference]) -> (r: String)
    ensures
        r@ == block(crate::refs::pairs(refs@)),
{
    render_block(refs)
}

/// The plain-language explanation of a status that did not answer.
pub open spec fn note_of(status: SearchStatus, query: Seq<char>, provider: Seq<char>) -> Option<Seq<char>> {
    match status {
        SearchStatus::Success => None,
        SearchStatus::Empty => Some("No results for `"@ + query + "` (provider: "@ + provider + ")."@),
        SearchStatus::Blocked => Some(
            "Search was blocked or returned an unrecognized page (provider: "@ + provider
                + "). This is not the same as having no results — the query was not answered."@,
        ),
    }
}

/// A plain-language explanation of a non-successful status; `None` when
/// results came back normally.
pub fn status_note(output: &SearchOutput) -> (r: Option<String>)
    ensures
        crate::text::opt_chars(r) == note_of(output.status, output.query@, output.provider@),
{
    match output.status {
        SearchStatus::Success => None,
        SearchStatus::Empty => {
            let mut s = owned("No results for `");
            push_str(&mut s, output.query.as_str());
            push_str(&mut s, "` (provider: ");
            push_str(&mut s, output.provider.as_str());
            push_str(&mut s, ").");
            Some(s)
        },
        SearchStatus::Blocked => {
            let mut s = owned("Search was blocked or returned an unrecognized page (provider: ");
            push_str(&mut s, output.provider.as_str());
            push_str(
                &mut s,
                "). This is not the same as having no results — the query was not answered.",
            );
            Some(s)
        },
    }
}

/// The human-readable form of a search: results, then the reference block,
/// then a note when the search did not actually answer.
pub open spec fn output_text(
    results: Seq<SearchResult>,
    refs: Seq<Reference>,
    note: Option<Seq<char>>,
) -> Seq<char> {
    let body = assemble_spec(results_text(results), block(crate::refs::pairs(refs)));
    match note {
        None => body,
        Some(n) => if body.len() == 0 {
            n
        } else {
            body + "\n\n"@ + n
        },
    }
}

/// Render the human-readable form of a search.
pub fn render_output(output: &SearchOutput) -> (r: String)
    ensures
        r@ == output_text(
            output.results@,
            output.references@,
            note_of(output.status, output.query@, output.provider@),
        ),
{
    let body = format_results(output.results.as_slice());
    let refs = render_references(output.references.as_slice());
    let mut s = assemble(body.as_str(), refs.as_str());
    match status_note(output) {
        Some(note) => {
            if !s.as_str().is_empty() {
                push_str(&mut s, "\n\n");
            }
            push_str(&mut s, note.as_str());
        },
        None => {},
    }
    s
}

/// Assemble an output from parsed results: the references are the results'
/// own indices and URLs, and the estimate covers the body and block together.
pub fn build_output(query: &str, results: Vec<SearchResult>, status: SearchStatus, provider: &str) -> (r: SearchOutput)
    ensures
        r.query@ == query@,
        r.results@ == results@,
        ref_pairs(r.references@) == refs_of(results@),
        r.token_estimate == tokens(bytes_of(assemble_spec(results_text(results@), block(crate::refs::pairs(r.references@))))),
        r.result_count == results@.len(),
        r.status == status,
        r.provider@ == provider@,
{
    let references = build_refs(results.as_slice());
    let body = format_results(results.as_slice());
    let refs_block = render_references(references.as_slice());
    let full = assemble(body.as_str(), refs_block.as_str());
    let token_estimate = estimate_tokens(full.as_str());
    let result_count = results.len();
    SearchOutput {
        query: owned(query),
        token_estimate,
        result_count,
        status,
        provider: owned(provider),
        references,
        results,
    }
}

/// Parse an already-fetched DuckDuckGo Lite page into a [`SearchOutput`],
/// with no network: the page's hits, at most `max_results` of them, and the
/// page's classification.
pub fn build_output_from_ddg(query: &str, html: &str, max_results: usize) -> (r: SearchOutput)
    ensures
        r.query@ == query@,
        extract::hits_view(r.results@) == extract::ddg_parsed(html@, max_results),
        ref_pairs(r.references@) == refs_of(r.results@),
        r.token_estimate == tokens(bytes_of(assemble_spec(results_text(r.results@), block(crate::refs::pairs(r.references@))))),
        r.result_count == r.results@.len(),
        r.status == extract::page_status(html@, r.results@.len() as usize),
        r.provider@ == "duckduckgo"@,
{
    let results = extract::parse_ddg_lite(html, max_results);
    let status = extract::classify_page(html, results.len());
    build_output(query, results, status, "duckduckgo")
}

/// A search answered: it came back and was not blocked.
pub open spec fn answered<E>(r: Result<SearchOutput, E>) -> bool {
    r matches Ok(o) && !(o.status is Blocked)
}

/// Whether the primary provider's outcome leaves the fallback to try.
pub fn needs_fallback<E>(primary: &Result<SearchOutput, E>) -> (r: bool)
    ensures
        r == !answered(*primary),
{
    match primary {
        Ok(o) => o.status.is_failure(),
        Err(_) => true,
    }
}

/// Which outcome a search reports: the primary's when it answered, else the
/// fallback's when that answered, else the primary's, so the error the
/// caller sees is the one for the provider they configured. A fallback is
/// never silent: the output names the provider that answered.
pub fn select_outcome<E>(primary: Result<SearchOutput, E>, fallback: Option<Result<SearchOutput, E>>) -> (r: Result<SearchOutput, E>)
    ensures
        answered(primary) ==> r == primary,
        !answered(primary) && (fallback matches Some(f) && answered(f)) ==> r == fallback.unwrap(),
        !answered(primary) && !(fallback matches Some(f) && answered(f)) ==> r == primary,
{
    if !needs_fallback(&primary) {
        return primary;
    }
    match fallback {
        Some(f) => {
            if !needs_fallback(&f) {
                f
            } else {
                primary
            }
        },
        None => primary,
    }
}

/// How many results a provider is asked for: the caller's cap, else 5.
pub fn max_results_for(options: &types::SearchOptions) -> (r: usize)
    ensures
        r == (match options.max_results {
            Some(m) => m,
            None => 5,
        }),
{
    match options.max_results {
        Some(m) => m,
        None => 5,
    }
}

} // verus!
