use jev_scout::jev::{
    candidate_is_stale, days_from_seconds, evaluation_key,
    evaluation_questions, evaluation_state, freshness_date, is_best_match, is_stale_180d, is_stale_at, julian_day,
    question_key, rank_order, Criteria,
};
use jev_scout::types::Candidate;

fn candidate(id: &str, updated_at: &str, pushed_at: &str) -> Candidate {
    Candidate {
        id: id.to_string(),
        name: id.to_string(),
        description: String::new(),
        url: String::new(),
        stars: 0,
        downloads: 0,
        license: String::new(),
        updated_at: updated_at.to_string(),
        pushed_at: pushed_at.to_string(),
        language: String::new(),
        topics: vec![],
        ecosystem: String::new(),
        install_cmd: String::new(),
    }
}

#[test]
fn stale_boundary() {
    assert!(!is_stale_180d(""));
    assert!(!is_stale_180d("not-a-date"));
    assert!(!is_stale_180d("2026-09-21T00:00:00Z"));
    assert!(is_stale_180d("2020-01-01T00:00:00Z"));
    assert!(is_stale_180d("2020-01-01"));
}

#[test]
fn julian_day_of_unix_epoch() {
    assert_eq!(julian_day(1970, 1, 1), 2440588);
    assert_eq!(julian_day(2000, 1, 1), 2451545);
    assert_eq!(julian_day(2000, 2, 29) + 1, julian_day(2000, 3, 1));
    assert_eq!(julian_day(1900, 2, 28) + 1, julian_day(1900, 3, 1));
    assert_eq!(julian_day(2023, 12, 31) + 1, julian_day(2024, 1, 1));
    // divisions round toward zero for years before the common era
    assert_eq!(julian_day(-100, 1, 1), 1684536);
    assert_eq!(julian_day(-1, 12, 31), 1721059);
    assert_eq!(julian_day(10000, 2, 29), 5373544);
}

#[test]
fn stale_exactly_at_limit() {
    // 1970-01-01 is day 0 of the Unix clock
    assert!(!is_stale_at("1970-01-01", 180));
    assert!(is_stale_at("1970-01-01", 181));
    assert!(!is_stale_at("1970-07-01T12:00:00Z", 181));
    // a field that reads as 0 never makes a date stale
    assert!(!is_stale_at("0000-01-01", 100000));
    assert!(!is_stale_at("2020-00-01", 100000));
    // signs are read as `str::parse` reads them
    assert!(is_stale_at("+020-01-01", 100000));
    assert!(!is_stale_at("2020-1x-01", 100000));
}

#[test]
fn stale_persists_as_time_goes_on() {
    assert!(is_stale_at("2000-01-01", 20000));
    assert!(is_stale_at("2000-01-01", 30000));
}

#[test]
fn day_count_from_clock() {
    assert_eq!(days_from_seconds(None), 0);
    assert_eq!(days_from_seconds(Some(86_399)), 0);
    assert_eq!(days_from_seconds(Some(86_400 * 3 + 5)), 3);
    // beyond i64 the seconds wrap as the cast does, and divide toward zero
    assert_eq!(days_from_seconds(Some(u64::MAX)), 0);
    assert_eq!(days_from_seconds(Some(1u64 << 63)), -106_751_991_167_300);
}

#[test]
fn non_ascii_text_is_never_stale() {
    assert!(!is_stale_180d("ééééé"));
    assert!(!is_stale_180d("202é-01-01"));
    assert!(!is_stale_180d("2é20-01-01"));
    assert!(!is_stale_at("2020-0é-01", 100000));
    assert!(is_stale_at("2020-01-01Tééé", 100000));
}

#[test]
fn evaluation_key_sorts_ids() {
    let a = candidate("repo/b", "", "");
    let b = candidate("crate:a", "", "");
    let k1 = evaluation_key("  Fast SQLite  ", &[a.clone(), b.clone()]);
    let k2 = evaluation_key("fast sqlite", &[b, a]);
    assert_eq!(k1, "fast sqlite|crate:a,repo/b");
    assert_eq!(k1, k2);
    assert_eq!(evaluation_key("Q", &[]), "q|");
}

#[test]
fn question_names() {
    assert_eq!(question_key("fit", 0), "fit_0");
    assert_eq!(question_key("modern", 12), "modern_12");
}

#[test]
fn freshness_prefers_push_date() {
    let c = candidate("x", "2020-01-01", "2026-11-01");
    assert_eq!(freshness_date(&c), "2026-11-01");
    let d = candidate("x", "2020-01-01", "");
    assert_eq!(freshness_date(&d), "2020-01-01");
    assert!(candidate_is_stale(&d));
    assert!(!candidate_is_stale(&c));
}

#[test]
fn best_match_by_id() {
    let c = candidate("crate:ratatui", "", "");
    assert!(is_best_match(&c, &"crate:ratatui".to_string()));
    assert!(!is_best_match(&c, &String::new()));
}

#[test]
fn ranking_is_stable_and_descending() {
    assert_eq!(rank_order(&vec![]), Vec::<usize>::new());
    assert_eq!(rank_order(&vec![2, 9, 2, 5, 9]), vec![1, 4, 3, 0, 2]);
}

#[test]
fn questions_of_a_request() {
    let mut a = candidate("crate:ratatui", "", "");
    a.name = "ratatui".to_string();
    a.description = "TUI library".to_string();
    let b = candidate("x/y", "", "");
    let qs = evaluation_questions("tui", &[a, b]);
    assert_eq!(qs.len(), 7);
    let keys: Vec<&str> = qs.iter().map(|q| q.key.as_str()).collect();
    assert_eq!(keys, vec!["fit_0", "doc_0", "modern_0", "fit_1", "doc_1", "modern_1", "best_match"]);
    assert_eq!(qs[0].instructions, "Relevance of 'ratatui' to 'tui'?");
    assert_eq!(qs[1].instructions, "Docs quality of 'ratatui'?");
    assert_eq!(qs[5].instructions, "Is 'x/y' actively maintained?");
    assert_eq!(qs[6].instructions, "Single best for 'tui'?");
    match &qs[0].criteria {
        Criteria::Levels(levels) => {
            assert_eq!(levels.len(), 4);
            assert_eq!(levels[3], "Exact architectural and functional match");
        }
        other => panic!("unexpected criteria {:?}", other),
    }
    match &qs[4].criteria {
        Criteria::Levels(levels) => assert_eq!(levels[0], "No usable description"),
        other => panic!("unexpected criteria {:?}", other),
    }
    match &qs[2].criteria {
        Criteria::Verdict { yes, no } => {
            assert_eq!(yes, "Actively maintained with modern tooling");
            assert_eq!(no, "Deprecated, abandoned, or legacy code");
        }
        other => panic!("unexpected criteria {:?}", other),
    }
    match &qs[6].criteria {
        Criteria::Choices(choices) => {
            assert_eq!(choices.len(), 2);
            assert_eq!(choices[0], ("crate:ratatui".to_string(), "ratatui: TUI library".to_string()));
            assert_eq!(choices[1], ("x/y".to_string(), "x/y: ".to_string()));
        }
        other => panic!("unexpected criteria {:?}", other),
    }
    assert_eq!(evaluation_questions("q", &[]).len(), 1);
}

#[test]
fn day_numbers_count_days_from_1970() {
    assert_eq!(julian_day(1970, 1, 2) - 2440588, 1);
    assert_eq!(julian_day(1969, 12, 31) - 2440588, -1);
    assert_eq!(julian_day(2000, 3, 1) - 2440588, 11017);
    assert_eq!(julian_day(1, 1, 1) - 2440588, -719162);
    assert_eq!(julian_day(9999, 12, 31) - 2440588, 2932896);
}

#[test]
fn request_state_leaves_out_derived_fields() {
    let mut a = candidate("crate:ratatui", "2024-01-01", "");
    a.stars = 5;
    a.downloads = 7;
    a.topics = vec!["tui".to_string()];
    a.url = "https://crates.io/crates/ratatui".to_string();
    let st = evaluation_state("tui", &[a, candidate("x/y", "", "2025-01-01")]);
    assert_eq!(st.query, "tui");
    assert_eq!(st.candidate_count, 2);
    assert_eq!(st.candidates[0].id, "crate:ratatui");
    assert_eq!(st.candidates[0].stars, 5);
    assert_eq!(st.candidates[0].downloads, 7);
    assert_eq!(st.candidates[0].topics, vec!["tui".to_string()]);
    assert_eq!(st.candidates[0].updated_at, "2024-01-01");
    assert_eq!(st.candidates[1].pushed_at, "2025-01-01");
}
