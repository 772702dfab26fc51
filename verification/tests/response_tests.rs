use jev_scout::jev::{best_match_choice, eval_failure_message, EvalFailure};
use jev_scout::json::{json_bool_at, json_text_at, json_u64_at};

const RAW: &str = r#"{
    "model": "jev-1.13.0",
    "answers": {
        "best_match": {
            "type": "choice",
            "choice": "crate:ratatui",
            "confidence": 0.98
        },
        "fit_0": {
            "type": "score",
            "score": 3.9,
            "confidence": 0.95
        },
        "modern_0": {
            "type": "noul",
            "noul": 0.99
        }
    }
}"#;

#[test]
fn test_jev_response_deserialization() {
    let parsed: serde_json::Value = serde_json::from_str(RAW).expect("valid json");
    assert_eq!(parsed["answers"]["best_match"]["choice"], "crate:ratatui");
    assert_eq!(parsed["answers"]["fit_0"]["score"], 3.9);
    assert_eq!(parsed["answers"]["modern_0"]["noul"], 0.99);
}

#[test]
fn reads_single_values_of_a_response() {
    assert_eq!(json_text_at(RAW, "/answers/best_match/choice"), Some("crate:ratatui".to_string()));
    assert_eq!(json_text_at(RAW, "/model"), Some("jev-1.13.0".to_string()));
    // a fraction is no whole number, and a missing key reads as nothing
    assert_eq!(json_u64_at(RAW, "/answers/fit_0/score"), None);
    assert_eq!(json_text_at(RAW, "/answers/doc_0/score"), None);
    assert_eq!(json_u64_at(r#"{"n": 42}"#, "/n"), Some(42));
    assert_eq!(json_bool_at(r#"{"b": false}"#, "/b"), Some(false));
    assert_eq!(json_text_at("not json", ""), None);
}

#[test]
fn best_match_of_a_response() {
    assert_eq!(best_match_choice(RAW), Some("crate:ratatui".to_string()));
    assert_eq!(best_match_choice(r#"{"answers": {}}"#), None);
    assert_eq!(best_match_choice(r#"{"answers": {"best_match": {"choice": 3}}}"#), None);
    assert_eq!(best_match_choice("garbage"), None);
}

#[test]
fn evaluation_failure_messages() {
    let s = EvalFailure::Status { code: 401, body: "bad key".to_string() };
    assert_eq!(eval_failure_message(&s), "TypeSafe Jev API HTTP 401: bad key");
    let u = EvalFailure::Unreachable { text: "dns error".to_string() };
    assert_eq!(
        eval_failure_message(&u),
        "Failed to call TypeSafe Jev API: dns error (check that TYPESAFE_API_KEY is configured)"
    );
    let b = EvalFailure::BadResponse { detail: "EOF".to_string() };
    assert_eq!(eval_failure_message(&b), "Failed to parse Jev API response: EOF");
    assert_eq!(eval_failure_message(&EvalFailure::NoAnswers), "Jev response missing answers");
}
