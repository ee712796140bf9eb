//! Tavily responses: `{"results": [{title, url, content}]}`.

use vstd::prelude::*;

use crate::json::{json_field, json_field_text, json_str, push_json_str};
use crate::text::{decimal, owned, push_str, usize_to_string};
use crate::search::extract::hits_view;
use crate::search::types::{SearchResult, SearchStatus};
use super::{keys_view, parse_response, parsed_response};

verus! {

/// Parse a Tavily response body: each hit's `title` and `url`, with its
/// `content` (or else its `snippet`) as the snippet. A body that is not
/// JSON is blocked.
pub fn parse(body: &str, max: usize) -> (r: (Vec<SearchResult>, SearchStatus))
    ensures
        (hits_view(r.0@), r.1) == parsed_response(
            body@,
            json_field_text(body@, "results"@),
            "title"@,
            "url"@,
            seq!["content"@, "snippet"@],
            max,
        ),
{
    let list = json_field(body, "results");
    let keys: Vec<&str> = vec!["content", "snippet"];
    assert(keys_view(keys@) =~= seq!["content"@, "snippet"@]);
    parse_response(body, list, "title", "url", keys.as_slice(), max)
}

/// The JSON body of a search request: the result count and the query, keys
/// in sorted order as serde_json writes an object.
pub open spec fn request_body_of(query: Seq<char>, max: usize) -> Seq<char> {
    "{\"max_results\":"@ + decimal(max as nat) + ",\"query\":"@ + json_str(query) + "}"@
}

pub fn request_body(query: &str, max: usize) -> (r: String)
    ensures
        r@ == request_body_of(query@, max),
{
    let mut body = owned("{\"max_results\":");
    let count = usize_to_string(max);
    push_str(&mut body, count.as_str());
    push_str(&mut body, ",\"query\":");
    push_json_str(&mut body, query);
    push_str(&mut body, "}");
    proof {
        assert(body@ =~= request_body_of(query@, max));
    }
    body
}

} // verus!
