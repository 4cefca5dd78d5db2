use condukt::ci::{parse_ci_checks, read_checks, CiConclusion};
use condukt::json::Json;

const JSON_ALL_SUCCESS: &str = r#"[
    {"name":"build","status":"completed","conclusion":"success"},
    {"name":"test","status":"completed","conclusion":"success"}
]"#;

const JSON_ONE_FAILURE: &str = r#"[
    {"name":"build","status":"completed","conclusion":"success"},
    {"name":"test","status":"completed","conclusion":"failure"}
]"#;

const JSON_ONE_PENDING: &str = r#"[
    {"name":"build","status":"completed","conclusion":"success"},
    {"name":"test","status":"in_progress","conclusion":null}
]"#;

const TEXT_ALL_SUCCESS: &str =
    "build\tpass\t12s\thttps://example/1\ntest\tpass\t34s\thttps://example/2\n";

const TEXT_ONE_FAILURE: &str =
    "build\tpass\t12s\thttps://example/1\ntest\tfail\t34s\thttps://example/2\n";

const TEXT_ONE_PENDING: &str =
    "build\tpass\t12s\thttps://example/1\ntest\tpending\t0s\thttps://example/2\n";

#[test]
fn json_all_success_yields_success() {
    assert_eq!(parse_ci_checks(JSON_ALL_SUCCESS), CiConclusion::Success);
}

#[test]
fn json_one_failure_yields_failure_even_with_success_present() {
    assert_eq!(parse_ci_checks(JSON_ONE_FAILURE), CiConclusion::Failure);
}

#[test]
fn json_one_pending_yields_pending_when_no_failure() {
    assert_eq!(parse_ci_checks(JSON_ONE_PENDING), CiConclusion::Pending);
}

#[test]
fn text_all_success_yields_success() {
    assert_eq!(parse_ci_checks(TEXT_ALL_SUCCESS), CiConclusion::Success);
}

#[test]
fn text_one_failure_yields_failure() {
    assert_eq!(parse_ci_checks(TEXT_ONE_FAILURE), CiConclusion::Failure);
}

#[test]
fn text_one_pending_yields_pending() {
    assert_eq!(parse_ci_checks(TEXT_ONE_PENDING), CiConclusion::Pending);
}

#[test]
fn empty_input_is_unknown_not_success() {
    assert_eq!(parse_ci_checks(""), CiConclusion::Unknown);
    assert_eq!(parse_ci_checks("   \n  \n"), CiConclusion::Unknown);
}

#[test]
fn parse_is_deterministic_across_repeated_calls() {
    for input in [
        JSON_ALL_SUCCESS,
        JSON_ONE_FAILURE,
        JSON_ONE_PENDING,
        TEXT_ALL_SUCCESS,
        TEXT_ONE_FAILURE,
        TEXT_ONE_PENDING,
    ] {
        let first = parse_ci_checks(input);
        for _ in 0..5 {
            assert_eq!(
                parse_ci_checks(input),
                first,
                "parse_ci_checks must be deterministic for input: {input:?}"
            );
        }
    }
}

#[test]
fn capital_letters_are_read_too() {
    assert_eq!(parse_ci_checks("build\tPASS\ntest\tFAIL\n"), CiConclusion::Failure);
    assert_eq!(parse_ci_checks(r#"[{"state":"SUCCESS"}]"#), CiConclusion::Success);
}

#[test]
fn success_takes_every_check() {
    let neutral = r#"[{"name":"build","conclusion":"success"},{"name":"lint","conclusion":"neutral"}]"#;
    assert_eq!(parse_ci_checks(neutral), CiConclusion::Unknown);
    assert_eq!(parse_ci_checks("build\tpass\nlint\tskipping\n"), CiConclusion::Unknown);
    let finished = r#"[{"conclusion":"success"},{"status":"completed","conclusion":"neutral"}]"#;
    assert_eq!(parse_ci_checks(finished), CiConclusion::Success);
    let nested = r#"{"statusCheckRollup":[{"state":"SUCCESS"},{"state":"EXPECTED"}]}"#;
    assert_eq!(parse_ci_checks(nested), CiConclusion::Unknown);
}

#[test]
fn a_document_without_a_status_is_read_as_text() {
    let none = Json::Array(Vec::new());
    assert_eq!(read_checks(&Some(none), "build pass"), CiConclusion::Success);
    assert_eq!(read_checks(&None, "build fail"), CiConclusion::Failure);
}
