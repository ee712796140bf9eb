//! webtools: token-efficient web fetch and search for LLM agents, built around
//! reference-style URL preservation.

pub mod text;
pub mod charset;
pub mod compress;
pub mod refs;
pub mod limits;
pub mod tls;
pub mod outline;
pub mod grep;
pub mod types;
pub mod search;
pub mod dom;
pub mod extract;
pub mod convert;
pub mod json;
pub mod rows;
pub mod page;
pub mod http;
pub mod fetch;
pub mod cache;
pub mod config;
pub mod guard;
pub mod mcp;
pub mod cli;
