use condukt::json::parse;
use condukt::oracle::{
    check_oracle, enforce_fp_gate, interpret_oracle, interpret_oracle_stdout, verdict_from_oracle,
    verdict_from_oracle_output, FpGateDecision, OracleRun, OracleVerdict,
};

fn unreachable_run() -> OracleRun {
    OracleRun::NotStarted { error: "No such file or directory (os error 2)".to_string() }
}

fn run_that_printed(stdout: &str, exit_ok: bool) -> OracleRun {
    OracleRun::Finished { stdout: stdout.to_string(), exit_ok }
}


#[test]
fn not_required_falls_back_immediately() {
    let out = check_oracle(false, Some("cargo test -p x"), &unreachable_run());
    assert_eq!(out.required, false);
    assert_eq!(out.fallback, true);
    assert_eq!(out.valid_fp_oracle, false);
}

#[test]
fn no_reproduction_tests_falls_back_even_when_required() {
    let out = check_oracle(true, None, &unreachable_run());
    assert_eq!(out.required, false);
    assert_eq!(out.fallback, true);
    assert_eq!(out.valid_fp_oracle, false);
}

#[test]
fn spawn_failure_falls_back() {
    let out = check_oracle(true, Some("cargo test -p x"), &unreachable_run());
    assert_eq!(out.required, true);
    assert_eq!(out.fallback, true);
    assert_eq!(out.valid_fp_oracle, false);
}

#[test]
fn interpret_valid_fp_oracle_stdout() {
    let (valid, transition) =
        interpret_oracle_stdout(r#"{"valid_fp_oracle":true,"transition":"FailToPass"}"#);
    assert!(valid);
    assert_eq!(transition.as_deref(), Some("FailToPass"));
}

#[test]
fn interpret_invalid_fp_oracle_stdout() {
    let (valid, transition) =
        interpret_oracle_stdout(r#"{"valid_fp_oracle":false,"transition":"fail_to_fail"}"#);
    assert!(!valid);
    assert_eq!(transition.as_deref(), Some("fail_to_fail"));
}

#[test]
fn interpret_corrupt_stdout_defaults_to_invalid() {
    let (valid, transition) = interpret_oracle_stdout("not json");
    assert!(!valid);
    assert_eq!(transition, None);
}

#[test]
fn unknown_transition_degrades_to_fallback_not_reject() {
    let v = verdict_from_oracle(false, Some("unknown"));
    assert_eq!(v.required, true);
    assert_eq!(v.valid_fp_oracle, false);
    assert_eq!(
        v.fallback, true,
        "no-proofs unknown must fall back, got: {v:?}"
    );
    assert!(matches!(
        enforce_fp_gate(&v),
        FpGateDecision::Allow(None)
    ));
}

#[test]
fn wrong_direction_transition_still_rejects() {
    for name in ["fail_to_fail", "pass_to_pass", "pass_to_fail"] {
        let v = verdict_from_oracle(false, Some(name));
        assert_eq!(
            v.fallback, false,
            "{name} is a real verdict, not fallback"
        );
        assert!(
            matches!(
                enforce_fp_gate(&v),
                FpGateDecision::Reject
            ),
            "{name} must still Reject"
        );
    }
}

#[test]
fn valid_fail_to_pass_allows_with_flag() {
    let v = verdict_from_oracle(true, Some("fail_to_pass"));
    assert_eq!(v.valid_fp_oracle, true);
    assert_eq!(v.fallback, false);
    assert!(matches!(
        enforce_fp_gate(&v),
        FpGateDecision::Allow(Some(true))
    ));
}

fn assert_undetermined_rejects(v: &OracleVerdict, ctx: &str) {
    assert_eq!(
        v.required, true,
        "{ctx}: required must stay true — got {v:?}"
    );
    assert_eq!(
        v.fallback, false,
        "{ctx}: a nonzero-exit `tdd oracle` is undetermined, not fallback — got {v:?}"
    );
    assert_eq!(
        v.valid_fp_oracle, false,
        "{ctx}: a crashed checker never proves a valid F→P oracle — got {v:?}"
    );
    assert!(
        matches!(
            enforce_fp_gate(v),
            FpGateDecision::Reject
        ),
        "{ctx}: must reach FpGateDecision::Reject, got {:?} for {v:?}",
        enforce_fp_gate(v)
    );
}

#[test]
fn nonzero_exit_with_empty_stdout_rejects() {
    assert_undetermined_rejects(
        &verdict_from_oracle_output("", false),
        "nonzero exit, empty stdout",
    );
    assert_undetermined_rejects(
        &verdict_from_oracle_output("   \n\t ", false),
        "nonzero exit, whitespace-only stdout",
    );
}

#[test]
fn nonzero_exit_with_corrupt_stdout_rejects() {
    for s in [
        "not json",
        "{\"valid_fp_oracle\": tru",
        "<html>500</html>",
        "[1,2,3",
    ] {
        assert_undetermined_rejects(
            &verdict_from_oracle_output(s, false),
            &format!("nonzero exit, corrupt stdout {s:?}"),
        );
    }
}

#[test]
fn nonzero_exit_does_not_trust_claimed_valid_oracle() {
    assert_undetermined_rejects(
        &verdict_from_oracle_output(
            r#"{"valid_fp_oracle":true,"transition":"fail_to_pass"}"#,
            false,
        ),
        "nonzero exit claiming valid fail_to_pass",
    );
    assert_undetermined_rejects(
        &verdict_from_oracle_output(
            r#"{"valid_fp_oracle":false,"transition":"unknown"}"#,
            false,
        ),
        "nonzero exit claiming unknown transition",
    );
    assert_undetermined_rejects(
        &verdict_from_oracle_output("null", false),
        "nonzero exit with JSON null stdout",
    );
}

#[test]
fn exit_ok_empty_stdout_still_falls_back() {
    for s in ["", "   \n"] {
        let v = verdict_from_oracle_output(s, true);
        assert_eq!(v.required, true, "stdout {s:?} → {v:?}");
        assert_eq!(v.fallback, true, "stdout {s:?} → {v:?}");
        assert_eq!(v.valid_fp_oracle, false, "stdout {s:?} → {v:?}");
        assert!(matches!(
            enforce_fp_gate(&v),
            FpGateDecision::Allow(None)
        ));
    }
}

#[test]
fn exit_ok_corrupt_stdout_still_falls_back() {
    let v = verdict_from_oracle_output("not json", true);
    assert_eq!(v.required, true, "{v:?}");
    assert_eq!(v.fallback, true, "{v:?}");
    assert_eq!(v.valid_fp_oracle, false, "{v:?}");
    assert!(matches!(
        enforce_fp_gate(&v),
        FpGateDecision::Allow(None)
    ));
}

#[test]
fn exit_ok_wellformed_stdout_matches_verdict_from_oracle() {
    let cases = [
        (
            r#"{"valid_fp_oracle":true,"transition":"fail_to_pass"}"#,
            true,
            Some("fail_to_pass"),
        ),
        (
            r#"{"valid_fp_oracle":false,"transition":"fail_to_fail"}"#,
            false,
            Some("fail_to_fail"),
        ),
        (
            r#"{"valid_fp_oracle":false,"transition":"pass_to_pass"}"#,
            false,
            Some("pass_to_pass"),
        ),
        (
            r#"{"valid_fp_oracle":false,"transition":"pass_to_fail"}"#,
            false,
            Some("pass_to_fail"),
        ),
        (
            r#"{"valid_fp_oracle":false,"transition":"unknown"}"#,
            false,
            Some("unknown"),
        ),
    ];
    for (stdout, valid, transition) in cases {
        let got = verdict_from_oracle_output(stdout, true);
        let want = verdict_from_oracle(valid, transition);
        assert_eq!(got, want, "exit-0 regression for stdout {stdout:?}");
        assert_eq!(
            enforce_fp_gate(&got),
            enforce_fp_gate(&want),
            "exit-0 gate decision regression for stdout {stdout:?}"
        );
    }
}

#[test]
fn oracle_fake_tdd_is_actually_spawned() {
    let v = check_oracle(
        true,
        Some("cargo test -p x"),
        &run_that_printed(r#"{"valid_fp_oracle":false,"transition":"pass_to_pass"}"#, true),
    );
    assert_eq!(v.transition, Some(Some("pass_to_pass".to_string())), "{v:?}");
    assert_eq!(v.fallback, false, "{v:?}");
}

#[test]
fn oracle_check_oracle_forwards_nonzero_exit_and_rejects() {
    let v = check_oracle(
        true,
        Some("cargo test -p x"),
        &run_that_printed(r#"{"valid_fp_oracle":true,"transition":"fail_to_pass"}"#, false),
    );
    assert_eq!(v.required, true, "{v:?}");
    assert_eq!(
        v.fallback, false,
        "a crashed tdd must not degrade to the legacy gate — got {v:?}"
    );
    assert_eq!(
        v.valid_fp_oracle, false,
        "check_oracle trusted a crashed checker's self-report — got {v:?}"
    );
    assert!(
        matches!(enforce_fp_gate(&v), FpGateDecision::Reject),
        "must Reject end-to-end, got {:?} for {v:?}",
        enforce_fp_gate(&v)
    );
}

#[test]
fn oracle_check_oracle_exit_zero_still_trusts_valid_verdict() {
    let v = check_oracle(
        true,
        Some("cargo test -p x"),
        &run_that_printed(r#"{"valid_fp_oracle":true,"transition":"fail_to_pass"}"#, true),
    );
    assert_eq!(v.required, true, "{v:?}");
    assert_eq!(v.fallback, false, "{v:?}");
    assert_eq!(v.valid_fp_oracle, true, "{v:?}");
    assert!(
        matches!(enforce_fp_gate(&v), FpGateDecision::Allow(Some(true))),
        "exit-0 regression: {v:?}"
    );
}

#[test]
fn a_document_of_another_shape_proves_nothing() {
    assert_eq!(interpret_oracle(&parse("[1]")), (false, None));
    assert_eq!(interpret_oracle(&parse(r#"{"valid_fp_oracle":"yes","transition":1}"#)), (false, None));
    assert_eq!(interpret_oracle(&None), (false, None));
}
