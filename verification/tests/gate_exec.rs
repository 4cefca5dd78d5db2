use condukt::gate_exec::{
    decide_from_outcome, decide_gate_exec, exit_code_for, gather_assessment, resolve_assessment,
    run_gate_check, GateExec, GatherOutcome, Resolved, Risk, RiskAssessment,
};
use condukt::model::{Decomposition, Task};
use condukt::verdict::Determination;

#[test]
fn undetermined_classification_never_auto_execs_and_keeps_its_reason() {
    let d: Determination<RiskAssessment> =
        Determination::undetermined("invalid sensitive glob `[`");
    let resolved = resolve_assessment(d);
    let reason = match resolved {
        Resolved::Undetermined(reason) => reason,
        Resolved::Assessed(a) => {
            panic!("an undetermined classification must not yield an assessment; got {a:?}")
        }
    };
    assert!(
        reason.contains("invalid sensitive glob"),
        "the Determination's reason must survive resolve_assessment unchanged; got {reason:?}"
    );

    let outcome = GatherOutcome::Undetermined(reason.clone());
    let (verdict, assessment, undetermined_reason) = decide_from_outcome(&outcome, true);
    assert_eq!(verdict, GateExec::Escalate);
    assert!(
        assessment.is_none(),
        "an undetermined outcome must not surface a fabricated assessment"
    );
    assert_eq!(
        undetermined_reason,
        Some(reason.as_str()),
        "the undetermined reason must reach the caller, not be erased"
    );
    assert_eq!(
        exit_code_for(verdict),
        1,
        "an undetermined classification must escalate with a non-zero exit code"
    );
}

#[test]
fn missing_outcome_escalates_without_a_reason() {
    let (verdict, assessment, undetermined_reason) =
        decide_from_outcome(&GatherOutcome::Missing, true);
    assert_eq!(verdict, GateExec::Escalate);
    assert!(assessment.is_none());
    assert_eq!(undetermined_reason, None);
    assert_eq!(exit_code_for(verdict), 1);
}

#[test]
fn known_classification_is_passed_through_unchanged() {
    let a = RiskAssessment {
        risk: Risk::Low,
        reversible: true,
    };
    match resolve_assessment(Determination::Known(a.clone())) {
        Resolved::Assessed(resolved) => assert_eq!(resolved, a),
        Resolved::Undetermined(reason) => {
            panic!(
                "a Known determination must resolve to Assessed; got Undetermined({reason:?})"
            )
        }
    }
    assert_eq!(
        decide_gate_exec(a.risk, a.reversible, true),
        GateExec::AutoExec
    );
}

#[test]
fn gate_exec_low_reversible_auto_autoexecs() {
    assert_eq!(
        decide_gate_exec(Risk::Low, true, true),
        GateExec::AutoExec,
        "the only safe corner (Low + reversible + auto) must auto-exec"
    );
}

#[test]
fn gate_exec_low_reversible_not_auto_escalates() {
    assert_eq!(
        decide_gate_exec(Risk::Low, true, false),
        GateExec::Escalate,
        "policy not auto must escalate even when Low + reversible"
    );
}

#[test]
fn gate_exec_low_not_reversible_escalates() {
    assert_eq!(
        decide_gate_exec(Risk::Low, false, true),
        GateExec::Escalate,
        "not reversible must escalate even when Low + auto"
    );
}

#[test]
fn gate_exec_medium_reversible_auto_escalates() {
    assert_eq!(
        decide_gate_exec(Risk::Medium, true, true),
        GateExec::Escalate,
        "Medium risk must escalate"
    );
}

#[test]
fn gate_exec_high_reversible_auto_escalates() {
    assert_eq!(
        decide_gate_exec(Risk::High, true, true),
        GateExec::Escalate,
        "High risk must escalate"
    );
}

#[test]
fn gate_exec_high_not_reversible_auto_escalates() {
    assert_eq!(
        decide_gate_exec(Risk::High, false, true),
        GateExec::Escalate,
        "High + irreversible must escalate"
    );
}

#[test]
fn gate_exec_is_deterministic() {
    let v1 = decide_gate_exec(Risk::Low, true, true);
    let v2 = decide_gate_exec(Risk::Low, true, true);
    assert_eq!(v1, v2, "same inputs must yield the same verdict");
}

fn plan_with(id: &str) -> Decomposition {
    Decomposition {
        goal: "g".to_string(),
        tasks: vec![Task { id: id.to_string(), ..Default::default() }],
    }
}

#[test]
fn a_task_that_is_not_planned_is_missing() {
    let low = RiskAssessment { risk: Risk::Low, reversible: true };
    let by_id = |t: &Task| {
        if t.id == "t1" {
            Determination::Known(low)
        } else {
            Determination::undetermined("bad glob")
        }
    };
    let plan = plan_with("t1");
    assert_eq!(gather_assessment(Some(&plan), "t1", &by_id), GatherOutcome::Assessed(low));
    assert_eq!(gather_assessment(Some(&plan), "t2", &by_id), GatherOutcome::Missing);
    assert_eq!(gather_assessment(None, "t1", &by_id), GatherOutcome::Missing);
    assert_eq!(
        gather_assessment(Some(&plan_with("t2")), "t2", &by_id),
        GatherOutcome::Undetermined("bad glob".to_string())
    );
}

#[test]
fn a_check_checkpoints_what_it_runs() {
    let low = GatherOutcome::Assessed(RiskAssessment { risk: Risk::Low, reversible: true });
    let check = run_gate_check(&low, true, "r1", "t1", 42);
    assert_eq!(check.verdict, GateExec::AutoExec);
    assert!(check.checkpoint);
    assert!(check.finding.is_none());
    assert_eq!(check.exit_code, 0);
    assert_eq!(check.record.verdict, "auto_exec");
    assert_eq!(check.record.risk.as_deref(), Some("low"));
    assert_eq!(check.record.recorded_at, 42);
}

#[test]
fn a_check_that_escalates_leaves_one_finding() {
    let high = GatherOutcome::Assessed(RiskAssessment { risk: Risk::High, reversible: false });
    let check = run_gate_check(&high, true, "r1", "t1", 42);
    assert_eq!(check.exit_code, 1);
    assert!(!check.checkpoint);
    let finding = check.finding.expect("a finding");
    assert_eq!(
        finding.summary,
        "gate-check escalated: task t1 risk=high reversible=false policy_is_auto=true"
    );
    let again = run_gate_check(&high, true, "r1", "t1", 99).finding.expect("a finding");
    assert_eq!(finding.id, again.id);
    let other = run_gate_check(&high, true, "r1", "t2", 42).finding.expect("a finding");
    assert_ne!(finding.id, other.id);

    let missing = run_gate_check(&GatherOutcome::Missing, false, "r1", "t1", 1);
    assert_eq!(
        missing.finding.expect("a finding").summary,
        "gate-check escalated: task t1 risk=unknown reversible=unknown policy_is_auto=false"
    );
    let open = GatherOutcome::Undetermined("bad glob".to_string());
    let open = run_gate_check(&open, true, "r1", "t1", 1);
    assert_eq!(open.undetermined_reason.as_deref(), Some("bad glob"));
    assert_eq!(
        open.finding.expect("a finding").summary,
        "gate-check escalated: task t1 risk classification could not be determined (bad glob); \
         policy_is_auto=true"
    );
}
