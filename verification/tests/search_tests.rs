use jev_scout::search::{
    bearer_header, crate_results, crates_failure_message, crates_search_url, encode_query,
    github_failure_message, github_results, github_search_url, plan_search, route_for, CrateItem,
    FetchFailure, GithubItem, Route,
};

#[test]
fn encodes_specials() {
    assert_eq!(encode_query("rust grep"), "rust+grep");
    assert_eq!(encode_query("a&b"), "a%26b");
    assert_eq!(encode_query("c#"), "c%23");
    assert_eq!(encode_query("tokio-rs"), "tokio-rs");
}

#[test]
fn encodes_multibyte_as_bytes() {
    assert_eq!(encode_query("é"), "%C3%A9");
    assert_eq!(encode_query("~_.-AZaz09"), "~_.-AZaz09");
    assert_eq!(encode_query(""), "");
    assert_eq!(encode_query("\n"), "%0A");
}

#[test]
fn search_urls() {
    assert_eq!(
        github_search_url("sqlite tui", 2),
        "https://api.github.com/search/repositories?q=sqlite+tui&sort=stars&order=desc&per_page=4"
    );
    assert_eq!(
        github_search_url("x", 8),
        "https://api.github.com/search/repositories?q=x&sort=stars&order=desc&per_page=8"
    );
    assert_eq!(crates_search_url("a&b", 10), "https://crates.io/api/v1/crates?q=a%26b&per_page=10");
    assert_eq!(bearer_header("abc"), "Bearer abc");
}

#[test]
fn routes_by_ecosystem() {
    assert!(matches!(route_for("github", 8), Route::Github { limit: 8 }));
    assert!(matches!(route_for("crates", 8), Route::Crates { limit: 8 }));
    assert!(matches!(route_for("crates.io", 8), Route::Crates { limit: 8 }));
    assert!(matches!(route_for("rust", 8), Route::Crates { limit: 8 }));
    assert!(matches!(route_for("all", 7), Route::Both { github_limit: 4, crates_limit: 3 }));
    let plan = plan_search("  Fast SQLite ", "GitHub", 8);
    assert_eq!(plan.key, "fast sqlite|GitHub|8");
    assert!(matches!(plan.route, Route::Github { limit: 8 }));
}

fn gh(full: Option<&str>) -> GithubItem {
    GithubItem {
        full_name: full.map(String::from),
        name: Some("sqlite-tui".to_string()),
        description: None,
        html_url: Some("https://github.com/a/sqlite-tui".to_string()),
        stargazers_count: Some(840),
        license_spdx_id: None,
        updated_at: Some("2026-08-30T10:00:00Z".to_string()),
        pushed_at: None,
        language: Some("Rust".to_string()),
        topics: Some(vec![Some("tui".to_string()), None, Some("sqlite".to_string())]),
    }
}

#[test]
fn github_answer_to_candidates() {
    let items = vec![gh(Some("a/sqlite-tui")), gh(None), gh(Some("")), gh(Some("b/c"))];
    let r = github_results(&Some(items), 10).unwrap();
    assert_eq!(r.len(), 2);
    assert_eq!(r[0].id, "a/sqlite-tui");
    assert_eq!(r[0].description, "No description provided");
    assert_eq!(r[0].license, "None");
    assert_eq!(r[0].stars, 840);
    assert_eq!(r[0].topics, vec!["tui".to_string(), "sqlite".to_string()]);
    assert_eq!(r[0].install_cmd, "gh repo clone a/sqlite-tui");
    assert_eq!(r[0].ecosystem, "github");
    assert_eq!(r[0].pushed_at, "");
    assert_eq!(r[1].id, "b/c");
    let limited = github_results(&Some(vec![gh(Some("a/b")), gh(Some("c/d"))]), 1).unwrap();
    assert_eq!(limited.len(), 1);
    assert_eq!(github_results(&None, 5).unwrap_err(), "GitHub response has no items");
}

#[test]
fn crates_answer_to_candidates() {
    let item = CrateItem {
        name: Some("ratatui".to_string()),
        description: Some("TUI".to_string()),
        downloads: Some(12),
        updated_at: None,
        license: Some(String::new()),
    };
    let nameless = CrateItem { name: None, description: None, downloads: None, updated_at: None, license: None };
    let r = crate_results(&Some(vec![item, nameless]), 5).unwrap();
    assert_eq!(r.len(), 1);
    assert_eq!(r[0].id, "crate:ratatui");
    assert_eq!(r[0].url, "https://crates.io/crates/ratatui");
    assert_eq!(r[0].license, "Unknown");
    assert_eq!(r[0].downloads, 12);
    assert_eq!(r[0].language, "Rust");
    assert_eq!(r[0].install_cmd, "cargo add ratatui");
    assert_eq!(crate_results(&None, 5).unwrap_err(), "crates.io response has no crates");
}

#[test]
fn failure_messages() {
    let s403 = FetchFailure::Status { code: 403, text: "x".to_string() };
    let s429 = FetchFailure::Status { code: 429, text: "x".to_string() };
    let s500 = FetchFailure::Status { code: 500, text: "status 500".to_string() };
    let slow = FetchFailure::Transport { detail: "io: timed out".to_string(), text: "t".to_string() };
    let dns = FetchFailure::Transport { detail: "Dns Failed".to_string(), text: "Dns Failed: x".to_string() };
    let bad = FetchFailure::BadJson { detail: "eof".to_string() };
    assert_eq!(github_failure_message(&s403), "GitHub search rate limited (403). Run `gh auth login`, then retry.");
    assert_eq!(github_failure_message(&s429), "GitHub search rate limited (429). Run `gh auth login` or wait a minute, then retry.");
    assert_eq!(github_failure_message(&s500), "GitHub search failed: status 500");
    assert_eq!(github_failure_message(&slow), "GitHub search timed out. Retry on a better connection.");
    assert_eq!(github_failure_message(&dns), "GitHub search failed: Dns Failed: x");
    assert_eq!(github_failure_message(&bad), "GitHub returned bad JSON: eof");
    assert_eq!(crates_failure_message(&s403), "crates.io search failed: x");
    assert_eq!(crates_failure_message(&s429), "crates.io rate limited (429). Wait a minute, then retry.");
    assert_eq!(crates_failure_message(&slow), "crates.io timed out. Retry on a better connection.");
    assert_eq!(crates_failure_message(&bad), "crates.io returned bad JSON: eof");
}

#[test]
fn encoding_shape_and_length() {
    for q in ["rust grep", "a&b", "c#", "é~x", ""] {
        let e = encode_query(q);
        let expected: usize = q
            .bytes()
            .map(|b| if b.is_ascii_alphanumeric() || b"-_.~ ".contains(&b) { 1 } else { 3 })
            .sum();
        assert_eq!(e.len(), expected);
        let cs: Vec<char> = e.chars().collect();
        for (i, c) in cs.iter().enumerate() {
            assert!(c.is_ascii_alphanumeric() || "-_.~+%".contains(*c));
            if *c == '%' {
                assert!(cs[i + 1].is_ascii_hexdigit() && !cs[i + 1].is_ascii_lowercase());
                assert!(cs[i + 2].is_ascii_hexdigit() && !cs[i + 2].is_ascii_lowercase());
            }
        }
    }
    assert_eq!(encode_query("é"), "%C3%A9");
}
