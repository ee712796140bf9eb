//! The MCP (Model Context Protocol) server's decisions: which frames are
//! requests, how a method is routed, which protocol version is answered,
//! what a tool call asks for, and the JSON-RPC text of every reply.
//!
//! The caller owns stdin, stdout and the tasks; it hands each line here and
//! writes back what comes out.

use vstd::prelude::*;

use crate::config::FetchConfig;
use crate::json::{
    json_bool, json_bool_value, json_field, json_field_text, json_is_valid, json_str, json_string,
    json_string_value, json_u64, json_u64_value, json_valid, push_json_str,
};
use crate::search::types::SearchOutput;
use crate::text::{bytes_of, decimal, opt_chars, opt_str_chars, owned, push_char, push_str, signed_decimal, i64_to_string, str_eq, trim, trim_str, usize_to_string};
use crate::tls::{paths_view, tls_config, TlsConfig};
use crate::types::{content_type_of, status_note, ContentStatus, ContentType, FetchOptions, FetchResult};

verus! {

/// The protocol version answered when the client's is not one spoken here.
pub const DEFAULT_PROTOCOL_VERSION: &'static str = "2024-11-05";

/// Default token cap for a `fetch` call: an MCP result goes straight into a
/// model's context, so a large page would silently cost the caller its
/// context window.
pub const DEFAULT_MCP_MAX_TOKENS: usize = 6000;

/// The longest line read as a frame (8 MiB).
pub const MAX_LINE_BYTES: usize = 8 * 1024 * 1024;

/// How many tool calls may be in flight at once.
pub const MAX_CONCURRENT_CALLS: usize = 8;

/// Protocol revisions this server speaks; the wire format is the same in
/// each.
pub open spec fn supported(v: Seq<char>) -> bool {
    v == "2024-11-05"@ || v == "2025-03-26"@ || v == "2025-06-18"@
}

/// Answer with the client's protocol version when it is spoken here, so a
/// newer client is not told to downgrade for no reason; else the default.
pub fn negotiate(requested: Option<&str>) -> (r: &'static str)
    ensures
        r@ == (match opt_str_chars(requested) {
            Some(v) => if supported(v) {
                v
            } else {
                "2024-11-05"@
            },
            None => "2024-11-05"@,
        }),
{
    match requested {
        Some(v) => {
            if str_eq(v, "2024-11-05") {
                "2024-11-05"
            } else if str_eq(v, "2025-03-26") {
                "2025-03-26"
            } else if str_eq(v, "2025-06-18") {
                "2025-06-18"
            } else {
                DEFAULT_PROTOCOL_VERSION
            }
        },
        None => DEFAULT_PROTOCOL_VERSION,
    }
}

/// The field `key` of an optional JSON document.
pub open spec fn field_of(doc: Option<Seq<char>>, key: Seq<char>) -> Option<Seq<char>> {
    match doc {
        Some(d) => json_field_text(d, key),
        None => None,
    }
}

fn field_text(doc: &Option<String>, key: &str) -> (r: Option<String>)
    ensures
        opt_chars(r) == field_of(opt_chars(*doc), key@),
{
    match doc {
        Some(d) => json_field(d.as_str(), key),
        None => None,
    }
}

/// A string-valued field of an optional JSON object.
pub open spec fn str_arg(doc: Option<Seq<char>>, key: Seq<char>) -> Option<Seq<char>> {
    match field_of(doc, key) {
        Some(t) => json_string_value(t),
        None => None,
    }
}

fn str_field(doc: &Option<String>, key: &str) -> (r: Option<String>)
    ensures
        opt_chars(r) == str_arg(opt_chars(*doc), key@),
{
    match field_text(doc, key) {
        Some(t) => json_string(t.as_str()),
        None => None,
    }
}

/// A `u64`-valued field of an optional JSON object.
pub open spec fn u64_arg(doc: Option<Seq<char>>, key: Seq<char>) -> Option<u64> {
    match field_of(doc, key) {
        Some(t) => json_u64_value(t),
        None => None,
    }
}

fn u64_field(doc: &Option<String>, key: &str) -> (r: Option<u64>)
    ensures
        r == u64_arg(opt_chars(*doc), key@),
{
    match field_text(doc, key) {
        Some(t) => json_u64(t.as_str()),
        None => None,
    }
}

/// A boolean field of an optional JSON object.
pub open spec fn bool_arg(doc: Option<Seq<char>>, key: Seq<char>) -> Option<bool> {
    match field_of(doc, key) {
        Some(t) => json_bool_value(t),
        None => None,
    }
}

fn bool_field(doc: &Option<String>, key: &str) -> (r: Option<bool>)
    ensures
        r == bool_arg(opt_chars(*doc), key@),
{
    match field_text(doc, key) {
        Some(t) => json_bool(t.as_str()),
        None => None,
    }
}

/// One line read from the client.
pub enum Frame {
    /// Blank, oversized, malformed, or a notification: nothing to answer.
    Skip,
    /// A request: its id (as JSON text), its method, and the whole message.
    Request { id: String, method: String, message: String },
}

/// What a line is: after trimming, a blank line, one over
/// [`MAX_LINE_BYTES`], or one that is not JSON is skipped; a message without
/// an `id` is a notification, acted on but never answered, so skipped here
/// too; anything else is a request, its method empty when it has none.
pub open spec fn frame_of(line: Seq<char>, r: Frame) -> bool {
    let t = trim(line);
    if t.len() == 0 || bytes_of(t).len() > MAX_LINE_BYTES || !json_is_valid(t) {
        r is Skip
    } else {
        match json_field_text(t, "id"@) {
            None => r is Skip,
            Some(id) => r matches Frame::Request { id: i, method, message } && i@ == id && message@ == t
                && method@ == (match str_arg(Some(t), "method"@) {
                Some(m) => m,
                None => Seq::<char>::empty(),
            }),
        }
    }
}

/// Read one line from the client.
pub fn read_frame(line: &str) -> (r: Frame)
    ensures
        frame_of(line@, r),
{
    let t = trim_str(line);
    if t.as_str().is_empty() || t.as_str().as_bytes().len() > MAX_LINE_BYTES || !json_valid(t.as_str()) {
        return Frame::Skip;
    }
    let id = match json_field(t.as_str(), "id") {
        None => {
            return Frame::Skip;
        },
        Some(id) => id,
    };
    let whole = Some(t);
    let method = match str_field(&whole, "method") {
        Some(m) => m,
        None => String::new(),
    };
    let message = match whole {
        Some(m) => m,
        None => String::new(),
    };
    Frame::Request { id, method, message }
}

/// How a request is answered.
pub enum Route {
    Initialize,
    ToolsList,
    ToolsCall,
    Ping,
    NotFound,
}

pub open spec fn route_of(method: Seq<char>) -> Route {
    if method == "initialize"@ {
        Route::Initialize
    } else if method == "tools/list"@ {
        Route::ToolsList
    } else if method == "tools/call"@ {
        Route::ToolsCall
    } else if method == "ping"@ {
        Route::Ping
    } else {
        Route::NotFound
    }
}

pub fn route(method: &str) -> (r: Route)
    ensures
        r == route_of(method@),
{
    if str_eq(method, "initialize") {
        Route::Initialize
    } else if str_eq(method, "tools/list") {
        Route::ToolsList
    } else if str_eq(method, "tools/call") {
        Route::ToolsCall
    } else if str_eq(method, "ping") {
        Route::Ping
    } else {
        Route::NotFound
    }
}

/// A successful JSON-RPC reply.
pub open spec fn ok_text(id: Seq<char>, result: Seq<char>) -> Seq<char> {
    "{\"id\":"@ + id + ",\"jsonrpc\":\"2.0\",\"result\":"@ + result + "}"@
}

pub fn ok_reply(id: &str, result: &str) -> (r: String)
    ensures
        r@ == ok_text(id@, result@),
{
    let mut s = owned("{\"id\":");
    push_str(&mut s, id);
    push_str(&mut s, ",\"jsonrpc\":\"2.0\",\"result\":");
    push_str(&mut s, result);
    push_str(&mut s, "}");
    s
}

/// A JSON-RPC error reply.
pub open spec fn err_text(id: Seq<char>, code: i64, message: Seq<char>) -> Seq<char> {
    "{\"error\":{\"code\":"@ + signed_decimal(code as int) + ",\"message\":"@ + json_str(message)
        + "},\"id\":"@ + id + ",\"jsonrpc\":\"2.0\"}"@
}

pub fn err_reply(id: &str, code: i64, message: &str) -> (r: String)
    ensures
        r@ == err_text(id@, code, message@),
{
    let mut s = owned("{\"error\":{\"code\":");
    let c = i64_to_string(code);
    push_str(&mut s, c.as_str());
    push_str(&mut s, ",\"message\":");
    push_json_str(&mut s, message);
    push_str(&mut s, "},\"id\":");
    push_str(&mut s, id);
    push_str(&mut s, ",\"jsonrpc\":\"2.0\"}");
    s
}

/// The result of `initialize`: the negotiated protocol version, the tools
/// capability, and who is answering.
pub open spec fn initialize_text(version: Seq<char>, server_version: Seq<char>) -> Seq<char> {
    "{\"capabilities\":{\"tools\":{}},\"protocolVersion\":"@ + json_str(version)
        + ",\"serverInfo\":{\"name\":\"webtools\",\"version\":"@ + json_str(server_version) + "}}"@
}

/// The `initialize` result for a request message, answering the version
/// the client asked for in `params.protocolVersion` when it is spoken here.
pub fn initialize_result(message: &str, server_version: &str) -> (r: String)
    ensures
        ({
            let requested = str_arg(json_field_text(message@, "params"@), "protocolVersion"@);
            let v = match requested {
                Some(v) => if supported(v) {
                    v
                } else {
                    "2024-11-05"@
                },
                None => "2024-11-05"@,
            };
            r@ == initialize_text(v, server_version@)
        }),
{
    let params = json_field(message, "params");
    let requested = str_field(&params, "protocolVersion");
    let v = match &requested {
        Some(q) => negotiate(Some(q.as_str())),
        None => negotiate(None),
    };
    let mut s = owned("{\"capabilities\":{\"tools\":{}},\"protocolVersion\":");
    push_json_str(&mut s, v);
    push_str(&mut s, ",\"serverInfo\":{\"name\":\"webtools\",\"version\":");
    push_json_str(&mut s, server_version);
    push_str(&mut s, "}}");
    s
}

/// The result of `tools/list`: the `fetch` and `search` tools and their
/// arguments.
pub const TOOLS_LIST: &'static str = "{\"tools\":[{\"description\":\"Fetch a URL and return token-efficient, reference-style content. Links become inline [N] markers with full URLs in a references list. Handles HTML, JSON, and plain text.\",\"inputSchema\":{\"properties\":{\"json\":{\"description\":\"Return the full FetchResult as JSON instead of rendered text (default false)\",\"type\":\"boolean\"},\"max_tokens\":{\"description\":\"Cap on output size in estimated tokens (default 6000)\",\"type\":\"integer\"},\"offset\":{\"description\":\"Byte offset into the extracted text to start from, for reading a long page one window at a time. Use the next_offset reported by the previous call; windows tile the document exactly.\",\"type\":\"integer\"},\"output\":{\"description\":\"Output format (default text)\",\"enum\":[\"text\",\"markdown\",\"structured\"],\"type\":\"string\"},\"timeout\":{\"description\":\"Request timeout in seconds (default 10)\",\"type\":\"integer\"},\"url\":{\"description\":\"URL to fetch\",\"type\":\"string\"}},\"required\":[\"url\"],\"type\":\"object\"},\"name\":\"fetch\"},{\"description\":\"Search the web and return results with reference-style URLs. Uses DuckDuckGo by default (no API key); a keyed provider can be configured.\",\"inputSchema\":{\"properties\":{\"json\":{\"description\":\"Return the full SearchOutput as JSON instead of rendered text (default false)\",\"type\":\"boolean\"},\"max_results\":{\"description\":\"Max results (default 5)\",\"type\":\"integer\"},\"query\":{\"description\":\"Search query\",\"type\":\"string\"},\"safe_search\":{\"description\":\"Safe search toggle\",\"enum\":[\"on\",\"off\"],\"type\":\"string\"},\"timeout\":{\"description\":\"Request timeout in seconds (default 10)\",\"type\":\"integer\"}},\"required\":[\"query\"],\"type\":\"object\"},\"name\":\"search\"}]}";

/// The result of `tools/list`.
pub fn tools_list() -> (r: &'static str)
    ensures
        r@ == TOOLS_LIST@,
{
    TOOLS_LIST
}

/// A tool result: the text, marked as a failure or not.
pub open spec fn tool_result_text(text: Seq<char>, failed: bool) -> Seq<char> {
    "{\"content\":[{\"text\":"@ + json_str(text) + ",\"type\":\"text\"}]"@ + (if failed {
        ",\"isError\":true}"@
    } else {
        "}"@
    })
}

/// Wrap text as a successful tool result.
pub fn tool_text(text: &str) -> (r: String)
    ensures
        r@ == tool_result_text(text@, false),
{
    let mut s = owned("{\"content\":[{\"text\":");
    push_json_str(&mut s, text);
    push_str(&mut s, ",\"type\":\"text\"}]");
    push_str(&mut s, "}");
    s
}

/// Wrap text as a failed tool result: the model has to see that a call did
/// not answer.
pub fn tool_failure(text: &str) -> (r: String)
    ensures
        r@ == tool_result_text(text@, true),
{
    let mut s = owned("{\"content\":[{\"text\":");
    push_json_str(&mut s, text);
    push_str(&mut s, ",\"type\":\"text\"}]");
    push_str(&mut s, ",\"isError\":true}");
    s
}

/// What a `tools/call` request asks for.
pub enum ToolCall {
    Fetch { options: FetchOptions, as_json: bool },
    Search {
        query: String,
        max_results: usize,
        safe_search: Option<bool>,
        timeout_secs: u64,
        as_json: bool,
    },
    /// A required argument is missing; the message names it.
    Missing(&'static str),
    /// A tool this server does not have.
    Unknown(String),
}

pub open spec fn or_text(o: Option<Seq<char>>, d: Seq<char>) -> Seq<char> {
    match o {
        Some(v) => v,
        None => d,
    }
}

/// What a `tools/call` message asks for: the tool named in
/// `params.name`, with `params.arguments`. A fetch takes `url` (required),
/// `output`, `max_tokens` (else the configured cap, else 6000), `offset`,
/// `timeout` (else the configured one, else 10 s) and the configured trust
/// anchors; a search takes `query` (required), `max_results` (5),
/// `safe_search` (`on` or `off`) and `timeout` (10 s); either takes `json`.
pub open spec fn call_of(message: Seq<char>, cfg: FetchConfig, r: ToolCall) -> bool {
    let params = json_field_text(message, "params"@);
    let name = or_text(str_arg(params, "name"@), Seq::<char>::empty());
    let args = field_of(params, "arguments"@);
    let as_json = match bool_arg(args, "json"@) {
        Some(b) => b,
        None => false,
    };
    if name == "fetch"@ {
        match str_arg(args, "url"@) {
            None => r matches ToolCall::Missing(m) && m@ == "missing required argument: url"@,
            Some(url) => r matches ToolCall::Fetch { options, as_json: j } && j == as_json && options.url@
                == url && options.content_type == content_type_of(or_text(str_arg(args, "output"@), "text"@))
                && options.max_tokens == Some(
                match u64_arg(args, "max_tokens"@) {
                    Some(n) => n as usize,
                    None => match cfg.max_tokens {
                        Some(m) => m,
                        None => DEFAULT_MCP_MAX_TOKENS,
                    },
                },
            ) && options.offset == (match u64_arg(args, "offset"@) {
                Some(n) => n as usize,
                None => 0,
            }) && options.timeout_secs == (match u64_arg(args, "timeout"@) {
                Some(n) => n,
                None => match cfg.timeout_secs {
                    Some(t) => t,
                    None => 10,
                },
            }) && paths_view(options.tls.ca_certs@) == paths_view(cfg.ca_certs@) && !options.tls.insecure
                && options.grep is None && !options.outline,
        }
    } else if name == "search"@ {
        match str_arg(args, "query"@) {
            None => r matches ToolCall::Missing(m) && m@ == "missing required argument: query"@,
            Some(q) => r matches ToolCall::Search { query, max_results, safe_search, timeout_secs, as_json: j }
                && query@ == q && j == as_json && max_results == (match u64_arg(args, "max_results"@) {
                Some(n) => n,
                None => 5,
            }) as usize && safe_search == (match str_arg(args, "safe_search"@) {
                Some(s) => if s == "on"@ {
                    Some(true)
                } else if s == "off"@ {
                    Some(false)
                } else {
                    None
                },
                None => None,
            }) && timeout_secs == (match u64_arg(args, "timeout"@) {
                Some(n) => n,
                None => 10,
            }),
        }
    } else {
        r matches ToolCall::Unknown(n) && n@ == name
    }
}

/// Read what a `tools/call` message asks for.
pub fn parse_tool_call(message: &str, cfg: &FetchConfig) -> (r: ToolCall)
    ensures
        call_of(message@, *cfg, r),
{
    let params = json_field(message, "params");
    let name = match str_field(&params, "name") {
        Some(n) => n,
        None => String::new(),
    };
    let args = field_text(&params, "arguments");
    let as_json = match bool_field(&args, "json") {
        Some(b) => b,
        None => false,
    };
    proof {
        reveal_strlit("fetch");
        reveal_strlit("search");
        reveal_strlit("text");
        reveal_strlit("on");
        reveal_strlit("off");
    }
    if str_eq(name.as_str(), "fetch") {
        let url = match str_field(&args, "url") {
            None => {
                return ToolCall::Missing("missing required argument: url");
            },
            Some(u) => u,
        };
        let content_type = match str_field(&args, "output") {
            Some(o) => ContentType::parse(o.as_str()),
            None => ContentType::parse("text"),
        };
        let max_tokens = match u64_field(&args, "max_tokens") {
            Some(n) => n as usize,
            None => match cfg.max_tokens {
                Some(m) => m,
                None => DEFAULT_MCP_MAX_TOKENS,
            },
        };
        let offset = match u64_field(&args, "offset") {
            Some(n) => n as usize,
            None => 0,
        };
        let timeout_secs = match u64_field(&args, "timeout") {
            Some(n) => n,
            None => match cfg.timeout_secs {
                Some(t) => t,
                None => 10,
            },
        };
        let tls = tls_config(Vec::new(), false, &cfg.ca_certs);
        proof {
            assert(paths_view(Seq::<String>::empty()) =~= Seq::<Seq<char>>::empty());
            assert(paths_view(cfg.ca_certs@) + Seq::<Seq<char>>::empty() =~= paths_view(cfg.ca_certs@));
        }
        let options = FetchOptions {
            url,
            content_type,
            max_tokens: Some(max_tokens),
            offset,
            timeout_secs,
            tls,
            grep: None,
            outline: false,
        };
        ToolCall::Fetch { options, as_json }
    } else if str_eq(name.as_str(), "search") {
        let query = match str_field(&args, "query") {
            None => {
                return ToolCall::Missing("missing required argument: query");
            },
            Some(q) => q,
        };
        let max_results = match u64_field(&args, "max_results") {
            Some(n) => n,
            None => 5,
        } as usize;
        let safe_search = match str_field(&args, "safe_search") {
            Some(s) => {
                if str_eq(s.as_str(), "on") {
                    Some(true)
                } else if str_eq(s.as_str(), "off") {
                    Some(false)
                } else {
                    None
                }
            },
            None => None,
        };
        let timeout_secs = match u64_field(&args, "timeout") {
            Some(n) => n,
            None => 10,
        };
        ToolCall::Search { query, max_results, safe_search, timeout_secs, as_json }
    } else {
        ToolCall::Unknown(name)
    }
}

/// The message of a call to a tool this server does not have.
pub fn unknown_tool_message(name: &str) -> (r: String)
    ensures
        r@ == "unknown tool: "@ + name@,
{
    let mut s = owned("unknown tool: ");
    push_str(&mut s, name);
    s
}

/// The footer that tells a reader of a budgeted page where it stopped and
/// how to continue.
pub open spec fn continuation_text(r: FetchResult, next: usize, how: Seq<char>) -> Seq<char> {
    "[showing bytes "@ + decimal(r.offset as nat) + "-"@ + decimal(next as nat) + " of "@ + decimal(
        r.total_bytes as nat,
    ) + " (~"@ + decimal(r.token_estimate as nat) + " of ~"@ + decimal(r.total_token_estimate as nat)
        + " tokens); continue with "@ + how + decimal(next as nat) + "]"@
}

pub fn push_continuation(s: &mut String, r: &FetchResult, next: usize, how: &str)
    ensures
        final(s)@ == old(s)@ + continuation_text(*r, next, how@),
{
    push_str(s, "[showing bytes ");
    push_str(s, usize_to_string(r.offset).as_str());
    push_str(s, "-");
    push_str(s, usize_to_string(next).as_str());
    push_str(s, " of ");
    push_str(s, usize_to_string(r.total_bytes).as_str());
    push_str(s, " (~");
    push_str(s, usize_to_string(r.token_estimate).as_str());
    push_str(s, " of ~");
    push_str(s, usize_to_string(r.total_token_estimate).as_str());
    push_str(s, " tokens); continue with ");
    push_str(s, how);
    push_str(s, usize_to_string(next).as_str());
    push_str(s, "]");
}

/// The compact rendering a model reads: the title and the URL the content
/// came from as a citation header, then the content (which carries its own
/// reference block), then where to continue when the body goes on.
pub open spec fn fetch_text(r: FetchResult) -> Seq<char> {
    let head = (if r.title@.len() > 0 {
        r.title@ + "\n"@
    } else {
        Seq::<char>::empty()
    }) + (if r.final_url@.len() > 0 {
        r.final_url@ + "\n"@
    } else {
        Seq::<char>::empty()
    });
    let head = if head.len() > 0 {
        head + "\n"@
    } else {
        head
    };
    head + r.content@ + match r.next_offset {
        Some(next) => "\n\n"@ + continuation_text(r, next, "offset="@),
        None => Seq::<char>::empty(),
    }
}

/// Render a fetch result for a model.
pub fn render_fetch(result: &FetchResult) -> (r: String)
    ensures
        r@ == fetch_text(*result),
{
    let mut s = String::new();
    if !result.title.as_str().is_empty() {
        push_str(&mut s, result.title.as_str());
        push_char(&mut s, '\n');
    }
    if !result.final_url.as_str().is_empty() {
        push_str(&mut s, result.final_url.as_str());
        push_char(&mut s, '\n');
    }
    if !s.as_str().is_empty() {
        push_char(&mut s, '\n');
    }
    push_str(&mut s, result.content.as_str());
    if let Some(next) = result.next_offset {
        push_str(&mut s, "\n\n");
        push_continuation(&mut s, result, next, "offset=");
    }
    proof {
        reveal_strlit("\n");
        reveal_strlit("\n\n");
        assert(s@ =~= fetch_text(*result));
    }
    s
}

/// The reply to a fetch: the body as it is when content came back, else
/// the body with the reason it is not an answer, as a failure.
pub open spec fn fetch_reply_text(status: ContentStatus, body: Seq<char>) -> Seq<char> {
    match status_note(status) {
        None => tool_result_text(body, false),
        Some(note) => tool_result_text(body + "\n\n["@ + note + "]"@, true),
    }
}

pub fn fetch_reply(status: ContentStatus, body: &str) -> (r: String)
    ensures
        r@ == fetch_reply_text(status, body@),
{
    match status.note() {
        None => tool_text(body),
        Some(note) => {
            let mut t = owned(body);
            push_str(&mut t, "\n\n[");
            push_str(&mut t, note);
            push_str(&mut t, "]");
            tool_failure(t.as_str())
        },
    }
}

/// The reply to a search: a failure when the search did not answer.
pub fn search_reply(output: &SearchOutput, body: &str) -> (r: String)
    ensures
        r@ == tool_result_text(body@, output.status is Blocked),
{
    if output.status.is_failure() {
        tool_failure(body)
    } else {
        tool_text(body)
    }
}

} // verus!
