//! SearXNG JSON API responses: `{"results": [{title, url, content}]}`.

use vstd::prelude::*;

use crate::json::{json_field, json_field_text};
use crate::search::extract::hits_view;
use crate::search::types::{SearchResult, SearchStatus};
use super::{keys_view, params_view, parse_response, parsed_response, push_param, push_safe_param, safe_param};

verus! {

/// Parse a SearXNG response body: each hit's `title`, `url` and `content`.
/// A body that is not JSON (an HTML error page, say) is blocked.
pub fn parse(body: &str, max: usize) -> (r: (Vec<SearchResult>, SearchStatus))
    ensures
        (hits_view(r.0@), r.1) == parsed_response(
            body@,
            json_field_text(body@, "results"@),
            "title"@,
            "url"@,
            seq!["content"@],
            max,
        ),
{
    let list = json_field(body, "results");
    let keys: Vec<&str> = vec!["content"];
    assert(keys_view(keys@) =~= seq!["content"@]);
    parse_response(body, list, "title", "url", keys.as_slice(), max)
}

/// How many trailing `/` a text ends with.
pub open spec fn trailing_slashes(s: Seq<char>) -> nat
    decreases s.len(),
{
    if s.len() > 0 && s.last() == '/' {
        1 + trailing_slashes(s.drop_last())
    } else {
        0
    }
}

/// The search endpoint of an instance: its root without trailing slashes,
/// then `/search`.
pub open spec fn endpoint_of(base_url: Seq<char>) -> Seq<char> {
    base_url.take(base_url.len() - trailing_slashes(base_url)) + "/search"@
}

pub fn endpoint(base_url: &str) -> (r: String)
    ensures
        r@ == endpoint_of(base_url@),
{
    let v = crate::text::chars_vec(base_url);
    let mut end = v.len();
    assert(v@.take(v@.len() as int) =~= v@);
    while end > 0 && v[end - 1] == '/'
        invariant
            end <= v@.len(),
            trailing_slashes(v@) == (v@.len() - end) + trailing_slashes(v@.take(end as int)),
        decreases end,
    {
        proof {
            assert(v@.take(end as int).drop_last() =~= v@.take(end - 1));
        }
        end -= 1;
    }
    proof {
        if end > 0 {
            assert(v@.take(end as int).last() == v@[end - 1]);
        }
        assert(v@.take(v@.len() as int) =~= v@);
    }
    let mut r = crate::text::string_of_range(&v, 0, end);
    crate::text::push_str(&mut r, "/search");
    proof {
        assert(v@.subrange(0, end as int) =~= v@.take(end as int));
    }
    r
}

/// The query parameters of a search: the query, the JSON format, and safe
/// search as `2` (strict) or `0` (off) when asked for.
pub open spec fn request_params_of(query: Seq<char>, safe: Option<bool>) -> Seq<(Seq<char>, Seq<char>)> {
    seq![("q"@, query), ("format"@, "json"@)] + safe_param(safe, "2"@, "0"@)
}

pub fn request_params(query: &str, safe: Option<bool>) -> (r: Vec<(String, String)>)
    ensures
        params_view(r@) == request_params_of(query@, safe),
{
    let mut params: Vec<(String, String)> = Vec::new();
    push_param(&mut params, "q", query);
    push_param(&mut params, "format", "json");
    push_safe_param(&mut params, safe, "2", "0");
    proof {
        assert(params_view(Seq::<(String, String)>::empty()) =~= Seq::empty());
        assert(params_view(params@) =~= request_params_of(query@, safe));
    }
    params
}

} // verus!
