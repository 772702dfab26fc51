//! The decisions of the stdio tool server (JSON-RPC 2.0, Model Context
//! Protocol): for each request line, what is answered. Reading lines,
//! running searches and writing answers are left to the caller.

use vstd::prelude::*;
use crate::json::{json_bool_at, json_leaf, json_lookup, json_text_at, json_u64_at, leaf_bool, leaf_present, leaf_text, leaf_u64, JsonLeaf, JsonLeafModel};
use crate::text::{framed, is_blank, opt_text, text_equals, text_is_blank, trim, trimmed};

verus! {

/// What the decisions read from one request.
#[derive(Debug)]
pub struct McpRequest {
    /// The request has an `id` (notifications have none).
    pub has_id: bool,
    /// `method`, when it is a string.
    pub method: Option<String>,
    /// `params.protocolVersion`, when it is a string.
    pub protocol_version: Option<String>,
    /// `params.name`, when it is a string.
    pub tool_name: Option<String>,
    /// `params.arguments.query`, when it is a string.
    pub query: Option<String>,
    /// `params.arguments.ecosystem`, when it is a string.
    pub ecosystem: Option<String>,
    /// `params.arguments.limit`, when it is a whole number that fits `u64`.
    pub limit: Option<u64>,
    /// `params.arguments.strict`, when it is a boolean.
    pub strict: Option<bool>,
}

/// A request as mathematical values.
pub struct RequestModel {
    pub has_id: bool,
    pub method: Option<Seq<char>>,
    pub protocol_version: Option<Seq<char>>,
    pub tool_name: Option<Seq<char>>,
    pub query: Option<Seq<char>>,
    pub ecosystem: Option<Seq<char>>,
    pub limit: Option<u64>,
    pub strict: Option<bool>,
}

/// The values of a request.
pub open spec fn request_view(r: McpRequest) -> RequestModel {
    RequestModel {
        has_id: r.has_id,
        method: opt_text(r.method),
        protocol_version: opt_text(r.protocol_version),
        tool_name: opt_text(r.tool_name),
        query: opt_text(r.query),
        ecosystem: opt_text(r.ecosystem),
        limit: r.limit,
        strict: r.strict,
    }
}

/// What a request line holds, read as JSON.
pub open spec fn line_request(line: Seq<char>) -> RequestModel {
    RequestModel {
        has_id: leaf_present(json_leaf(line, "/id"@)),
        method: leaf_text(json_leaf(line, "/method"@)),
        protocol_version: leaf_text(json_leaf(line, "/params/protocolVersion"@)),
        tool_name: leaf_text(json_leaf(line, "/params/name"@)),
        query: leaf_text(json_leaf(line, "/params/arguments/query"@)),
        ecosystem: leaf_text(json_leaf(line, "/params/arguments/ecosystem"@)),
        limit: leaf_u64(json_leaf(line, "/params/arguments/limit"@)),
        strict: leaf_bool(json_leaf(line, "/params/arguments/strict"@)),
    }
}

/// The line is no JSON document.
pub open spec fn line_unreadable(line: Seq<char>) -> bool {
    json_leaf(line, "/id"@) is Unreadable
}

/// What to do with a request.
#[derive(Debug)]
pub enum McpAction {
    /// Answer nothing (a blank or unreadable line, or a notification).
    Ignore,
    /// Answer the handshake with this protocol version.
    Initialize { protocol_version: String },
    /// Answer a ping with an empty result.
    Pong,
    /// Answer with the description of the tool.
    ListTools,
    /// Answer with this JSON-RPC error.
    Fail { code: i64, message: String },
    /// Run a scout search and answer with its results.
    Scout { query: String, ecosystem: String, limit: u64, strict: bool },
}

/// The decision as mathematical values.
pub enum Decision {
    Ignore,
    Initialize(Seq<char>),
    Pong,
    ListTools,
    Fail(int, Seq<char>),
    Scout(Seq<char>, Seq<char>, u64, bool),
}

/// The decision that an action carries out.
pub open spec fn action_view(a: McpAction) -> Decision {
    match a {
        McpAction::Ignore => Decision::Ignore,
        McpAction::Initialize { protocol_version } => Decision::Initialize(protocol_version@),
        McpAction::Pong => Decision::Pong,
        McpAction::ListTools => Decision::ListTools,
        McpAction::Fail { code, message } => Decision::Fail(code as int, message@),
        McpAction::Scout { query, ecosystem, limit, strict } => Decision::Scout(query@, ecosystem@, limit, strict),
    }
}

/// The text of `o`, or `default` when there is none.
pub open spec fn seq_or(o: Option<Seq<char>>, default: Seq<char>) -> Seq<char> {
    match o {
        Some(s) => s,
        None => default,
    }
}

/// The protocol versions that the server speaks.
pub open spec fn is_supported_protocol(v: Seq<char>) -> bool {
    v == "2024-11-05"@ || v == "2025-03-26"@ || v == "2025-06-18"@
}

/// The version answered to a handshake asking for `requested`: that
/// version when supported, else the server's own, `2025-03-26`.
pub open spec fn negotiated_version(requested: Seq<char>) -> Seq<char> {
    if is_supported_protocol(requested) { requested } else { "2025-03-26"@ }
}

/// `n` brought into `lo..=hi`.
pub open spec fn clamp_spec(n: u64, lo: u64, hi: u64) -> u64 {
    if n < lo { lo } else if n > hi { hi } else { n }
}

/// The decision for a `tools/call` request.
pub open spec fn tool_call_decision(req: RequestModel) -> Decision {
    let tool = seq_or(req.tool_name, Seq::empty());
    let query = trim(seq_or(req.query, Seq::empty()));
    let eco = seq_or(req.ecosystem, "all"@);
    if tool != "scout_repos"@ {
        Decision::Fail(-32601, "Method or tool '"@ + tool + "' not found"@)
    } else if query.len() == 0 {
        Decision::Fail(-32602, "Missing required argument: query"@)
    } else if !(eco == "all"@ || eco == "github"@ || eco == "crates"@) {
        Decision::Fail(-32602, "Invalid ecosystem '"@ + eco + "'. Use all, github, or crates."@)
    } else {
        Decision::Scout(
            query,
            eco,
            clamp_spec(match req.limit { Some(n) => n, None => 5 }, 1, 10),
            match req.strict { Some(b) => b, None => true },
        )
    }
}

/// The decision for a request.
pub open spec fn decide_spec(req: RequestModel) -> Decision {
    let method = seq_or(req.method, Seq::empty());
    if !req.has_id {
        Decision::Ignore
    } else if method == "initialize"@ {
        Decision::Initialize(negotiated_version(seq_or(req.protocol_version, Seq::empty())))
    } else if method == "ping"@ {
        Decision::Pong
    } else if method == "tools/list"@ {
        Decision::ListTools
    } else if method == "tools/call"@ {
        tool_call_decision(req)
    } else {
        Decision::Fail(-32601, "Method '"@ + method + "' not found"@)
    }
}

/// The decision for a request line: blank lines and lines that are no JSON
/// are skipped, anything else is decided as a request.
pub open spec fn decide_line_spec(line: Seq<char>) -> Decision {
    if is_blank(line) || line_unreadable(line) {
        Decision::Ignore
    } else {
        decide_spec(line_request(line))
    }
}

fn owned_or(o: &Option<String>, default: &str) -> (r: String)
    ensures
        r@ == seq_or(opt_text(*o), default@),
{
    match o {
        Some(s) => s.clone(),
        None => default.to_owned(),
    }
}

fn tool_call(req: &McpRequest) -> (r: McpAction)
    ensures
        action_view(r) == tool_call_decision(request_view(*req)),
{
    let tool = owned_or(&req.tool_name, "");
    proof {
        assert(""@ =~= Seq::<char>::empty()) by { reveal_strlit(""); }
    }
    if !text_equals(tool.as_str(), "scout_repos") {
        return McpAction::Fail { code: -32601, message: framed("Method or tool '", tool.as_str(), "' not found") };
    }
    let raw = owned_or(&req.query, "");
    let query = trimmed(raw.as_str());
    if query.as_str().is_empty() {
        return McpAction::Fail { code: -32602, message: "Missing required argument: query".to_owned() };
    }
    let eco = owned_or(&req.ecosystem, "all");
    if !(text_equals(eco.as_str(), "all") || text_equals(eco.as_str(), "github") || text_equals(eco.as_str(), "crates")) {
        return McpAction::Fail {
            code: -32602,
            message: framed("Invalid ecosystem '", eco.as_str(), "'. Use all, github, or crates."),
        };
    }
    let n = match req.limit { Some(n) => n, None => 5 };
    let limit = if n < 1 { 1 } else if n > 10 { 10 } else { n };
    let strict = match req.strict { Some(b) => b, None => true };
    McpAction::Scout { query, ecosystem: eco, limit, strict }
}

/// What the server does with a request: notifications are never answered;
/// `initialize` negotiates the protocol version; `ping` and `tools/list`
/// are answered; `tools/call` of `scout_repos` with a non-blank query and a
/// known ecosystem runs a search; anything else is answered with an error.
pub fn decide(req: &McpRequest) -> (r: McpAction)
    ensures
        action_view(r) == decide_spec(request_view(*req)),
{
    if !req.has_id {
        return McpAction::Ignore;
    }
    let method = owned_or(&req.method, "");
    proof {
        assert(""@ =~= Seq::<char>::empty()) by { reveal_strlit(""); }
    }
    if text_equals(method.as_str(), "initialize") {
        let requested = owned_or(&req.protocol_version, "");
        let v = if text_equals(requested.as_str(), "2024-11-05") || text_equals(requested.as_str(), "2025-03-26")
            || text_equals(requested.as_str(), "2025-06-18") {
            requested
        } else {
            "2025-03-26".to_owned()
        };
        McpAction::Initialize { protocol_version: v }
    } else if text_equals(method.as_str(), "ping") {
        McpAction::Pong
    } else if text_equals(method.as_str(), "tools/list") {
        McpAction::ListTools
    } else if text_equals(method.as_str(), "tools/call") {
        tool_call(req)
    } else {
        McpAction::Fail { code: -32601, message: framed("Method '", method.as_str(), "' not found") }
    }
}

/// The request that a JSON line holds, or `None` when it is no JSON.
pub fn read_request(line: &str) -> (r: Option<McpRequest>)
    ensures
        r is Some <==> !line_unreadable(line@),
        r matches Some(req) ==> request_view(req) == line_request(line@),
{
    let has_id = match json_lookup(line, "/id") {
        JsonLeaf::Unreadable => return None,
        JsonLeaf::Absent => false,
        _ => true,
    };
    Some(McpRequest {
        has_id,
        method: json_text_at(line, "/method"),
        protocol_version: json_text_at(line, "/params/protocolVersion"),
        tool_name: json_text_at(line, "/params/name"),
        query: json_text_at(line, "/params/arguments/query"),
        ecosystem: json_text_at(line, "/params/arguments/ecosystem"),
        limit: json_u64_at(line, "/params/arguments/limit"),
        strict: json_bool_at(line, "/params/arguments/strict"),
    })
}

/// What the server does with one line of its input.
pub fn decide_line(line: &str) -> (r: McpAction)
    ensures
        action_view(r) == decide_line_spec(line@),
{
    if text_is_blank(line) {
        return McpAction::Ignore;
    }
    match read_request(line) {
        None => McpAction::Ignore,
        Some(req) => decide(&req),
    }
}

/// The answer to a search whose evaluation failed: a JSON-RPC error with
/// code -32000 and the evaluation's message.
pub fn evaluation_failed(message: String) -> (r: McpAction)
    ensures
        action_view(r) == Decision::Fail(-32000, message@),
{
    McpAction::Fail { code: -32000, message }
}

/// A search that the server runs takes its arguments from the request: the
/// trimmed query; the ecosystem given, `all` when none is; the limit given
/// when it is 1 to 10, the nearest of these when it is outside, 5 when none
/// is; and the strict flag given, `true` when none is.
pub proof fn lemma_scout_takes_request_arguments(req: RequestModel)
    ensures
        decide_spec(req) matches Decision::Scout(query, eco, limit, strict) ==> {
            &&& req.has_id
            &&& req.method == Some("tools/call"@)
            &&& req.tool_name == Some("scout_repos"@)
            &&& query == trim(seq_or(req.query, Seq::empty()))
            &&& query.len() > 0
            &&& (req.ecosystem matches Some(e) ==> eco == e)
            &&& (req.ecosystem is None ==> eco == "all"@)
            &&& (eco == "all"@ || eco == "github"@ || eco == "crates"@)
            &&& (req.limit matches Some(n) ==> (1 <= n <= 10 ==> limit == n) && (n < 1 ==> limit == 1) && (n > 10 ==> limit == 10))
            &&& (req.limit is None ==> limit == 5)
            &&& (req.strict matches Some(b) ==> strict == b)
            &&& (req.strict is None ==> strict)
        },
{
    reveal_strlit("tools/call");
    reveal_strlit("initialize");
    reveal_strlit("ping");
    reveal_strlit("tools/list");
    assert("tools/call"@.len() == 10 && "ping"@.len() == 4);
    assert("tools/call"@[0] != "initialize"@[0]);
    assert("tools/call"@[6] != "tools/list"@[6]);
    assert("tools/call"@ != "initialize"@);
    assert("tools/call"@ != "ping"@);
    assert("tools/call"@ != "tools/list"@);
    reveal_strlit("scout_repos");
    assert("scout_repos"@.len() == 11);
    if decide_spec(req) is Scout {
        let m = seq_or(req.method, Seq::empty());
        assert(req.has_id);
        assert(m == "tools/call"@);
        assert(req.method is Some);
        let t = seq_or(req.tool_name, Seq::empty());
        assert(tool_call_decision(req) is Scout);
        assert(t == "scout_repos"@);
        assert(req.tool_name is Some);
    }
}

/// A `tools/call` of `scout_repos` with an id, a query that is not blank
/// and a known ecosystem (or none) always runs a search.
pub proof fn lemma_scout_when_arguments_usable(req: RequestModel)
    requires
        req.has_id,
        req.method == Some("tools/call"@),
        req.tool_name == Some("scout_repos"@),
        trim(seq_or(req.query, Seq::empty())).len() > 0,
        req.ecosystem is None || req.ecosystem == Some("all"@) || req.ecosystem == Some("github"@)
            || req.ecosystem == Some("crates"@),
    ensures
        decide_spec(req) is Scout,
{
    reveal_strlit("tools/call");
    reveal_strlit("initialize");
    reveal_strlit("ping");
    reveal_strlit("tools/list");
    assert("tools/call"@.len() == 10 && "ping"@.len() == 4);
    assert("tools/call"@[0] != "initialize"@[0]);
    assert("tools/call"@[6] != "tools/list"@[6]);
    assert("tools/call"@ != "initialize"@);
    assert("tools/call"@ != "ping"@);
    assert("tools/call"@ != "tools/list"@);
}

/// A request with an id is answered by its method: `ping` with a pong,
/// `tools/list` with the tool list, `initialize` with a supported protocol
/// version (the client's own when supported), `tools/call` by the tool
/// rules, and any other method with a -32601 error. A `tools/call` of
/// another tool gets -32601, and one without a usable query -32602.
pub proof fn lemma_method_answers(req: RequestModel)
    requires
        req.has_id,
    ensures
        req.method == Some("ping"@) ==> decide_spec(req) == Decision::Pong,
        req.method == Some("tools/list"@) ==> decide_spec(req) == Decision::ListTools,
        req.method == Some("initialize"@) ==> (decide_spec(req) matches Decision::Initialize(v)
            && is_supported_protocol(v)
            && (req.protocol_version matches Some(p) ==> (is_supported_protocol(p) ==> v == p))),
        !(req.method == Some("ping"@) || req.method == Some("tools/list"@) || req.method == Some("initialize"@)
            || req.method == Some("tools/call"@)) ==> (decide_spec(req) matches Decision::Fail(code, _) && code == -32601),
        req.method == Some("tools/call"@) && req.tool_name != Some("scout_repos"@)
            ==> (decide_spec(req) matches Decision::Fail(code, _) && code == -32601),
        req.method == Some("tools/call"@) && req.tool_name == Some("scout_repos"@)
            && trim(seq_or(req.query, Seq::empty())).len() == 0
            ==> (decide_spec(req) matches Decision::Fail(code, _) && code == -32602),
{
    reveal_strlit("tools/call");
    reveal_strlit("initialize");
    reveal_strlit("ping");
    reveal_strlit("tools/list");
    reveal_strlit("scout_repos");
    reveal_strlit("2025-03-26");
    assert("tools/call"@.len() == 10 && "ping"@.len() == 4 && "initialize"@.len() == 10 && "tools/list"@.len() == 10);
    assert("tools/call"@[0] != "initialize"@[0]);
    assert("tools/call"@[6] != "tools/list"@[6]);
    assert("tools/list"@[0] != "initialize"@[0]);
    assert("scout_repos"@.len() == 11);
    assert(is_supported_protocol("2025-03-26"@));
    let m = seq_or(req.method, Seq::empty());
    if req.method is None {
        assert(m.len() == 0);
    }
    if req.method == Some("tools/call"@) && req.tool_name != Some("scout_repos"@) {
        let t = seq_or(req.tool_name, Seq::empty());
        if req.tool_name is None {
            assert(t.len() == 0);
        }
        assert(t != "scout_repos"@);
    }
}

/// A blank line, or one that is no JSON, is never answered; any other line
/// is answered as the request it holds.
pub proof fn lemma_lines_decided_as_requests(line: Seq<char>)
    ensures
        is_blank(line) || line_unreadable(line) ==> decide_line_spec(line) == Decision::Ignore,
        !is_blank(line) && !line_unreadable(line) ==> decide_line_spec(line) == decide_spec(line_request(line)),
{
}

/// A notification (a request without an id) is never answered.
pub proof fn lemma_notifications_unanswered(req: RequestModel)
    requires
        !req.has_id,
    ensures
        decide_spec(req) == Decision::Ignore,
{
}

/// The version answered to a handshake is always one that the server speaks.
pub proof fn lemma_negotiated_version_supported(requested: Seq<char>)
    ensures
        is_supported_protocol(negotiated_version(requested)),
{
    assert(is_supported_protocol("2025-03-26"@));
}

/// A search that the server runs asks for between 1 and 10 results, for a
/// query that is trimmed and not empty.
pub proof fn lemma_scout_arguments_in_range(req: RequestModel)
    ensures
        decide_spec(req) matches Decision::Scout(query, _, limit, _)
            ==> 1 <= limit <= 10 && query.len() > 0 && query == trim(seq_or(req.query, Seq::empty())),
{
}

} // verus!
