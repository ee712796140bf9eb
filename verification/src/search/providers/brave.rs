//! Brave Search API responses: `{"web": {"results": [{title, url, description}]}}`.

use vstd::prelude::*;

use crate::json::{json_field, json_field_text};
use crate::search::extract::hits_view;
use crate::search::types::{SearchResult, SearchStatus};
use crate::text::{decimal, usize_to_string};
use super::{keys_view, params_view, parse_response, parsed_response, push_param, push_safe_param, safe_param};

verus! {

/// The JSON text of a Brave response's hit list.
pub open spec fn brave_list(body: Seq<char>) -> Option<Seq<char>> {
    match json_field_text(body, "web"@) {
        Some(w) => json_field_text(w, "results"@),
        None => None,
    }
}

/// Parse a Brave response body: each hit's `title`, `url` and
/// `description`. A body that is not JSON is blocked; a response without
/// the `web` list is an empty answer.
pub fn parse(body: &str, max: usize) -> (r: (Vec<SearchResult>, SearchStatus))
    ensures
        (hits_view(r.0@), r.1) == parsed_response(
            body@,
            brave_list(body@),
            "title"@,
            "url"@,
            seq!["description"@],
            max,
        ),
{
    let list = match json_field(body, "web") {
        Some(w) => json_field(w.as_str(), "results"),
        None => None,
    };
    let keys: Vec<&str> = vec!["description"];
    assert(keys_view(keys@) =~= seq!["description"@]);
    parse_response(body, list, "title", "url", keys.as_slice(), max)
}

/// The most results Brave returns for one request.
pub const MAX_COUNT: usize = 20;

/// The query parameters of a search: the query, the result count capped at
/// [`MAX_COUNT`], and safe search as `strict` or `off` when asked for.
pub open spec fn request_params_of(query: Seq<char>, max: usize, safe: Option<bool>) -> Seq<(Seq<char>, Seq<char>)> {
    seq![("q"@, query), ("count"@, decimal(if max < MAX_COUNT { max as nat } else { MAX_COUNT as nat }))]
        + safe_param(safe, "strict"@, "off"@)
}

pub fn request_params(query: &str, max: usize, safe: Option<bool>) -> (r: Vec<(String, String)>)
    ensures
        params_view(r@) == request_params_of(query@, max, safe),
{
    let mut params: Vec<(String, String)> = Vec::new();
    push_param(&mut params, "q", query);
    let count = if max < MAX_COUNT { max } else { MAX_COUNT };
    let count_text = usize_to_string(count);
    push_param(&mut params, "count", count_text.as_str());
    push_safe_param(&mut params, safe, "strict", "off");
    proof {
        assert(params_view(Seq::<(String, String)>::empty()) =~= Seq::empty());
        assert(params_view(params@) =~= request_params_of(query@, max, safe));
    }
    params
}

} // verus!
