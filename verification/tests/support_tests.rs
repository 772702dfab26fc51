use jev_scout::cache::{cache_get, cache_put, TtlCache};
use jev_scout::cli::{classify_arg, parse_limit, pick_token, query_is_usable, usable_secret, CliArg, CliFlag};
use jev_scout::mcp::{decide, decide_line, evaluation_failed, read_request, McpAction, McpRequest};
use jev_scout::text::{decimal_string, text_contains, trimmed};
use jev_scout::trend::{history_from_json, history_to_json, History};
use jev_scout::types::{copy_candidates, Candidate};

fn candidate(id: &str) -> Candidate {
    Candidate {
        id: id.to_string(),
        name: id.to_string(),
        description: "d".to_string(),
        url: String::new(),
        stars: 1,
        downloads: 2,
        license: "MIT".to_string(),
        updated_at: String::new(),
        pushed_at: String::new(),
        language: String::new(),
        topics: vec!["t".to_string()],
        ecosystem: "github".to_string(),
        install_cmd: String::new(),
    }
}

#[test]
fn cache_read_after_write() {
    let mut c: TtlCache<Vec<Candidate>> = TtlCache::new();
    assert!(cache_get(&c, "k").is_none());
    cache_put(&mut c, "k", &[candidate("a"), candidate("b")]);
    let hit = cache_get(&c, "k").unwrap();
    assert_eq!(hit.len(), 2);
    assert_eq!(hit[1].id, "b");
    assert_eq!(hit[0].topics, vec!["t".to_string()]);
    assert!(cache_get(&c, "other").is_none());
    cache_put(&mut c, "k", &[]);
    assert_eq!(cache_get(&c, "k").unwrap().len(), 0);
}

#[test]
fn cache_expiry_by_stamp() {
    let mut c: TtlCache<u32> = TtlCache::new();
    c.store_at("old".to_string(), 1, 0);
    assert_eq!(c.lookup_at("old", 60_000_000_000), Some(&1));
    assert_eq!(c.lookup_at("old", 60_000_000_001), None);
    c.store_at("new".to_string(), 2, 60_000_000_000);
    // the store dropped "old", which had reached the time-to-live
    assert_eq!(c.lookup_at("old", 60_000_000_000), None);
    assert_eq!(c.lookup_at("new", 60_000_000_000), Some(&2));
    c.store_at("new".to_string(), 3, 60_000_000_001);
    assert_eq!(c.lookup_at("new", 60_000_000_001), Some(&3));
}

#[test]
fn strict_lookup_misses_at_the_limit() {
    let mut c: TtlCache<u32> = TtlCache::new();
    c.store_at("k".to_string(), 7, 100);
    assert_eq!(c.lookup_young_at("k", 100), Some(&7));
    assert_eq!(c.lookup_young_at("k", 60_000_000_099), Some(&7));
    assert_eq!(c.lookup_young_at("k", 60_000_000_100), None);
    assert_eq!(c.lookup_at("k", 60_000_000_100), Some(&7));
    assert_eq!(c.lookup_young_at("other", 100), None);
    c.put_fresh("fresh".to_string(), 9);
    assert_eq!(c.get_young("fresh"), Some(&9));
}

#[test]
fn copies_candidates() {
    let v = copy_candidates(&[candidate("x")]);
    assert_eq!(v[0].license, "MIT");
}

#[test]
fn text_helpers() {
    assert_eq!(trimmed("\u{3000} a b \t\n"), "a b");
    assert_eq!(trimmed("   "), "");
    assert_eq!(decimal_string(0), "0");
    assert_eq!(decimal_string(18446744073709551615), "18446744073709551615");
    assert!(text_contains("connection timed out", "timed out"));
    assert!(!text_contains("time", "timed out"));
    assert!(text_contains("", ""));
}

#[test]
fn history_records_changes() {
    let mut h = History::new();
    assert_eq!(h.record("sqlite tui", "a/b"), None);
    assert_eq!(h.record("sqlite tui", "a/b"), None);
    assert_eq!(h.record("sqlite tui", "c/d"), Some("a/b".to_string()));
    assert_eq!(h.get("sqlite tui"), Some("c/d".to_string()));
    assert_eq!(h.record("grep", "x"), None);
    let pairs = h.pairs();
    assert_eq!(pairs.len(), 2);
    let back = History::from_pairs(pairs);
    assert_eq!(back.get("grep"), Some("x".to_string()));
    let dup = History::from_pairs(vec![("q".to_string(), "1".to_string()), ("q".to_string(), "2".to_string())]);
    assert_eq!(dup.get("q"), Some("2".to_string()));
    assert_eq!(dup.pairs().len(), 1);
}

fn request(method: Option<&str>) -> McpRequest {
    McpRequest {
        has_id: true,
        method: method.map(String::from),
        protocol_version: None,
        tool_name: None,
        query: None,
        ecosystem: None,
        limit: None,
        strict: None,
    }
}

#[test]
fn mcp_decisions() {
    let mut note = request(Some("notifications/initialized"));
    note.has_id = false;
    assert!(matches!(decide(&note), McpAction::Ignore));

    let mut init = request(Some("initialize"));
    init.protocol_version = Some("2024-11-05".to_string());
    match decide(&init) {
        McpAction::Initialize { protocol_version } => assert_eq!(protocol_version, "2024-11-05"),
        _ => panic!("expected initialize"),
    }
    init.protocol_version = Some("1999-01-01".to_string());
    match decide(&init) {
        McpAction::Initialize { protocol_version } => assert_eq!(protocol_version, "2025-03-26"),
        _ => panic!("expected initialize"),
    }
    assert!(matches!(decide(&request(Some("ping"))), McpAction::Pong));
    assert!(matches!(decide(&request(Some("tools/list"))), McpAction::ListTools));
    match decide(&request(Some("resources/list"))) {
        McpAction::Fail { code, message } => {
            assert_eq!(code, -32601);
            assert_eq!(message, "Method 'resources/list' not found");
        }
        _ => panic!("expected failure"),
    }
    match decide(&request(None)) {
        McpAction::Fail { code, message } => {
            assert_eq!(code, -32601);
            assert_eq!(message, "Method '' not found");
        }
        _ => panic!("expected failure"),
    }

    let mut call = request(Some("tools/call"));
    call.tool_name = Some("other".to_string());
    match decide(&call) {
        McpAction::Fail { code, message } => {
            assert_eq!(code, -32601);
            assert_eq!(message, "Method or tool 'other' not found");
        }
        _ => panic!("expected failure"),
    }
    call.tool_name = Some("scout_repos".to_string());
    call.query = Some("   ".to_string());
    match decide(&call) {
        McpAction::Fail { code, message } => {
            assert_eq!(code, -32602);
            assert_eq!(message, "Missing required argument: query");
        }
        _ => panic!("expected failure"),
    }
    call.query = Some(" sqlite tui ".to_string());
    call.ecosystem = Some("npm".to_string());
    match decide(&call) {
        McpAction::Fail { code, message } => {
            assert_eq!(code, -32602);
            assert_eq!(message, "Invalid ecosystem 'npm'. Use all, github, or crates.");
        }
        _ => panic!("expected failure"),
    }
    call.ecosystem = None;
    call.limit = Some(50);
    match decide(&call) {
        McpAction::Scout { query, ecosystem, limit, strict } => {
            assert_eq!(query, "sqlite tui");
            assert_eq!(ecosystem, "all");
            assert_eq!(limit, 10);
            assert!(strict);
        }
        _ => panic!("expected a search"),
    }
    call.limit = Some(0);
    call.strict = Some(false);
    call.ecosystem = Some("crates".to_string());
    match decide(&call) {
        McpAction::Scout { limit, strict, ecosystem, .. } => {
            assert_eq!(limit, 1);
            assert!(!strict);
            assert_eq!(ecosystem, "crates");
        }
        _ => panic!("expected a search"),
    }
}

#[test]
fn mcp_lines() {
    assert!(matches!(decide_line("  \t"), McpAction::Ignore));
    assert!(matches!(decide_line("{not json"), McpAction::Ignore));
    assert!(read_request("{not json").is_none());
    assert!(matches!(
        decide_line(r#"{"jsonrpc":"2.0","method":"notifications/initialized"}"#),
        McpAction::Ignore
    ));
    assert!(matches!(decide_line(r#"{"jsonrpc":"2.0","id":null,"method":"ping"}"#), McpAction::Pong));
    match decide_line(r#"{"jsonrpc":"2.0","id":1,"method":"initialize","params":{"protocolVersion":"2025-06-18"}}"#) {
        McpAction::Initialize { protocol_version } => assert_eq!(protocol_version, "2025-06-18"),
        other => panic!("unexpected {:?}", other),
    }
    let call = r#"{"jsonrpc":"2.0","id":"a","method":"tools/call","params":{"name":"scout_repos","arguments":{"query":" grep ","ecosystem":"github","limit":3,"strict":false}}}"#;
    match decide_line(call) {
        McpAction::Scout { query, ecosystem, limit, strict } => {
            assert_eq!(query, "grep");
            assert_eq!(ecosystem, "github");
            assert_eq!(limit, 3);
            assert!(!strict);
        }
        other => panic!("unexpected {:?}", other),
    }
    let negative = r#"{"id":2,"method":"tools/call","params":{"name":"scout_repos","arguments":{"query":"x","limit":-4,"strict":"yes"}}}"#;
    match decide_line(negative) {
        McpAction::Scout { limit, strict, ecosystem, .. } => {
            assert_eq!(limit, 5);
            assert!(strict);
            assert_eq!(ecosystem, "all");
        }
        other => panic!("unexpected {:?}", other),
    }
    match decide_line(r#"[1,2]"#) {
        McpAction::Ignore => {}
        other => panic!("unexpected {:?}", other),
    }
    let req = read_request(r#"{"id":3,"method":7}"#).unwrap();
    assert!(req.has_id);
    assert!(req.method.is_none());
}

#[test]
fn cli_decisions() {
    assert!(matches!(classify_arg(&CliArg::Short('e')), CliFlag::Ecosystem));
    assert!(matches!(classify_arg(&CliArg::Long("limit".to_string())), CliFlag::Limit));
    assert!(matches!(classify_arg(&CliArg::Short('j')), CliFlag::Json));
    assert!(matches!(classify_arg(&CliArg::Long("no-filter".to_string())), CliFlag::NoFilter));
    assert!(matches!(classify_arg(&CliArg::Long("mcp".to_string())), CliFlag::Mcp));
    assert!(matches!(classify_arg(&CliArg::Short('v')), CliFlag::Version));
    assert!(matches!(classify_arg(&CliArg::Short('x')), CliFlag::Unexpected));
    assert!(matches!(classify_arg(&CliArg::Long("filter".to_string())), CliFlag::Unexpected));
    match classify_arg(&CliArg::Value("sqlite".to_string())) {
        CliFlag::Query(q) => assert_eq!(q, "sqlite"),
        _ => panic!("expected a query"),
    }
    assert_eq!(parse_limit("12"), 12);
    assert_eq!(parse_limit("+3"), 3);
    assert_eq!(parse_limit("-3"), 5);
    assert_eq!(parse_limit(""), 5);
    assert_eq!(parse_limit("+"), 5);
    assert_eq!(parse_limit("1e3"), 5);
    assert_eq!(parse_limit("99999999999999999999999"), 5);
    assert_eq!(parse_limit("18446744073709551615"), 18446744073709551615usize);
    assert_eq!(usable_secret("  key \n"), Some("key".to_string()));
    assert_eq!(usable_secret(" \t "), None);
    assert!(query_is_usable(&Some(" q ".to_string())));
    assert!(!query_is_usable(&Some("  ".to_string())));
    assert!(!query_is_usable(&None));
}

#[test]
fn history_json_file() {
    let h = history_from_json(r#"{"fast grep":"crate:ripgrep","tui":"x/y"}"#);
    assert_eq!(h.get("fast grep"), Some("crate:ripgrep".to_string()));
    assert_eq!(h.get("tui"), Some("x/y".to_string()));
    assert_eq!(h.get("other"), None);
    // no object of strings: an empty history
    assert_eq!(history_from_json("not json").pairs().len(), 0);
    assert_eq!(history_from_json(r#"{"q": 1}"#).pairs().len(), 0);
    assert_eq!(history_from_json("[]").pairs().len(), 0);
    // written in key order, whatever the order of recording
    let mut w = History::new();
    w.record("b", "2");
    w.record("a", "1");
    assert_eq!(history_to_json(&w), Some(r#"{"a":"1","b":"2"}"#.to_string()));
    let back = history_from_json(&history_to_json(&w).unwrap());
    assert_eq!(back.get("a"), Some("1".to_string()));
    assert_eq!(back.get("b"), Some("2".to_string()));
    assert_eq!(history_to_json(&History::new()), Some("{}".to_string()));
}

#[test]
fn token_precedence() {
    let some = |s: &str| Some(s.to_string());
    assert_eq!(pick_token(&some(" a "), &some("b"), &some("c")), some("a"));
    assert_eq!(pick_token(&some("  "), &some("b\n"), &some("c")), some("b"));
    assert_eq!(pick_token(&None, &some(""), &some("c\n")), some("c"));
    assert_eq!(pick_token(&None, &None, &some(" \n")), None);
    assert_eq!(pick_token(&None, &None, &None), None);
}

#[test]
fn failed_evaluation_answer() {
    match evaluation_failed("boom".to_string()) {
        McpAction::Fail { code, message } => {
            assert_eq!(code, -32000);
            assert_eq!(message, "boom");
        }
        other => panic!("unexpected action {:?}", other),
    }
}

#[test]
fn clock_never_before_a_stored_stamp() {
    let mut c: TtlCache<u32> = TtlCache::new();
    // a stamp far ahead of the clock: readings are taken as at least that stamp
    c.store_at("k".to_string(), 1, 1_000_000_000_000_000);
    assert!(c.now_nanos() >= 1_000_000_000_000_000);
    assert_eq!(c.get_fresh("k"), Some(&1));
    c.put_fresh("j".to_string(), 2);
    assert_eq!(c.get_young("j"), Some(&2));
    assert_eq!(c.get_young("k"), Some(&1));
}
