//! Conversion of a parsed page into the requested output format.

pub mod links;
pub mod text;
pub mod structured;
pub mod markdown;

use vstd::prelude::*;

use crate::compress::{compress_block, compress_block_spec};
use crate::convert::links::refs_wf;
use crate::convert::markdown::{markdown_walk, markdown_with_refs};
use crate::convert::structured::{blocks_view, doc_json, structured, structured_walk, to_json};
use crate::convert::text::{text_walk, text_with_refs};
use crate::dom::{parse_html, parsed_nodes, RawNode};
use crate::types::{urefs_view, ContentType, UrlRefV, UrlReference};

verus! {

/// A converted document: the rendered content plus the references it cites.
///
/// The content never carries the trailing `References:` block: whether a
/// reference survives depends on whether the (possibly truncated) body still
/// cites it, which is the budget's decision.
pub struct Converted {
    pub content: String,
    pub references: Vec<UrlReference>,
}

/// The content and references a page converts to in each format: text and
/// markdown are block-compressed; structured output is its JSON.
pub open spec fn converted_of(s: Seq<RawNode>, base: Seq<char>, ct: ContentType) -> (Seq<char>, Seq<UrlRefV>) {
    match ct {
        ContentType::Text => {
            let w = text_walk(s, base);
            (compress_block_spec(w.0), w.1)
        },
        ContentType::Markdown => {
            let w = markdown_walk(s, base);
            (compress_block_spec(w.0), w.1)
        },
        ContentType::Structured => {
            let w = structured_walk(s, base);
            (doc_json(w.0, w.1), w.1)
        },
    }
}

/// Convert a parsed document to the requested content type. The references
/// are numbered from 1 with no gaps, each URL listed once.
pub fn convert_parsed(nodes: &Vec<RawNode>, base_url: &str, content_type: ContentType) -> (r: Converted)
    ensures
        (r.content@, urefs_view(r.references@)) == converted_of(nodes@, base_url@, content_type),
        refs_wf(urefs_view(r.references@)),
{
    match content_type {
        ContentType::Text => {
            let (body, references) = text_with_refs(nodes, base_url);
            Converted { content: compress_block(body.as_str()), references }
        },
        ContentType::Markdown => {
            let (md, references) = markdown_with_refs(nodes, base_url);
            Converted { content: compress_block(md.as_str()), references }
        },
        ContentType::Structured => {
            let parsed = structured(nodes, base_url);
            let content = to_json(&parsed);
            Converted { content, references: parsed.references }
        },
    }
}

/// [`convert_parsed`] for callers holding raw HTML.
pub fn convert(html: &str, base_url: &str, content_type: ContentType) -> (r: Converted)
    ensures
        (r.content@, urefs_view(r.references@)) == converted_of(parsed_nodes(html@), base_url@, content_type),
        refs_wf(urefs_view(r.references@)),
{
    let nodes = parse_html(html);
    convert_parsed(&nodes, base_url, content_type)
}

} // verus!
