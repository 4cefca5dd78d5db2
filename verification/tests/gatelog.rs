use condukt::gatelog::{
    answer_outcome, circuit_log_path, decisions_path, diffrisk_outcomes_path, gate_exec_log_path,
    incomplete_warning, journal_entry, journal_lines, load_circuit_records, load_decisions,
    load_diffrisk_outcomes, load_gate_exec_records, AnswerOutcome, CircuitRecord, DiffRiskOutcome,
    DiffRiskRecord, GateDecision, GateExecRecord,
};
use condukt::json::{parse, spell, Json};
use condukt::policy::Decision;

fn opts() -> Vec<String> {
    vec!["adopt".to_string(), "revise".to_string()]
}

#[test]
fn auto_self_answers_the_recommended_option() {
    let o = answer_outcome(Decision::Auto, &opts(), 1);
    assert_eq!(
        o,
        AnswerOutcome::Answered {
            chosen: "revise".to_string(),
            recommend_index: 1,
        }
    );
    assert_eq!(o.exit_code(), 0);
}

#[test]
fn escalate_defers_to_a_human() {
    let o = answer_outcome(Decision::Escalate, &opts(), 0);
    assert_eq!(o, AnswerOutcome::Escalate);
    assert_eq!(o.exit_code(), 2);
}

#[test]
fn block_is_a_hard_stop() {
    let o = answer_outcome(Decision::Block, &opts(), 0);
    assert_eq!(o, AnswerOutcome::Block);
    assert_eq!(o.exit_code(), 3);
}

#[test]
fn out_of_range_recommend_is_invalid_not_a_panic() {
    let o = answer_outcome(Decision::Auto, &opts(), 9);
    assert_eq!(o, AnswerOutcome::Invalid);
    assert_eq!(o.exit_code(), 1);
}

#[test]
fn empty_options_on_auto_is_invalid() {
    let o = answer_outcome(Decision::Auto, &[], 0);
    assert_eq!(o, AnswerOutcome::Invalid);
}

fn circuit_line(rec: &CircuitRecord) -> String {
    format!(
        r#"{{"verdict":{},"reason":{},"streak":{},"recorded_at":{}}}"#,
        spell(&rec.verdict),
        rec.reason.as_deref().map(spell).unwrap_or("null".to_string()),
        rec.streak,
        rec.recorded_at
    )
}

fn read_circuit(line: &str) -> Option<CircuitRecord> {
    let j = parse(line)?;
    Some(CircuitRecord {
        verdict: j.text_at("verdict")?.to_string(),
        reason: j.text_at("reason").map(|s| s.to_string()),
        streak: j.get("streak")?.as_u64()? as u32,
        streak_cap: 3,
        budget_over_cap: false,
        idle_secs: 0,
        idle_ttl_secs: 1800,
        recorded_at: j.get("recorded_at")?.as_i64()?,
    })
}

fn decision_line(d: &GateDecision) -> String {
    format!(
        r#"{{"question":{},"created_at":{}}}"#,
        spell(&d.question),
        d.created_at
    )
}

fn read_decision(line: &str) -> Option<GateDecision> {
    let j: Json = parse(line)?;
    Some(GateDecision {
        question: j.text_at("question")?.to_string(),
        options: opts(),
        recommend_index: 0,
        chosen: "adopt".to_string(),
        policy: "auto".to_string(),
        created_at: j.get("created_at")?.as_i64()?,
    })
}

fn decision(q: &str, at: i64) -> GateDecision {
    GateDecision {
        question: q.to_string(),
        options: opts(),
        recommend_index: 0,
        chosen: "adopt".to_string(),
        policy: "auto".to_string(),
        created_at: at,
    }
}

#[test]
fn append_then_load_round_trips_in_order() {
    let mut log = String::new();
    log.push_str(&journal_entry(&decision_line(&decision("first?", 100))));
    log.push_str(&journal_entry(&decision_line(&decision("second?", 200))));
    let rows = journal_lines(&log).iter().map(|l| read_decision(l)).collect();
    let got = load_decisions(rows).records;
    assert_eq!(got.len(), 2);
    assert_eq!(got[0].question, "first?");
    assert_eq!(got[1].question, "second?");
    assert_eq!(got[1].created_at, 200);
}

#[test]
fn missing_log_loads_empty() {
    assert!(journal_lines("").is_empty());
    assert!(load_decisions(Vec::new()).records.is_empty());
}

#[test]
fn circuit_append_then_load_round_trips_and_missing_is_empty() {
    assert!(load_circuit_records(Vec::new()).records.is_empty());
    let rec = CircuitRecord {
        verdict: "trip".to_string(),
        reason: Some("failure_streak".to_string()),
        streak: 3,
        streak_cap: 3,
        budget_over_cap: false,
        idle_secs: 0,
        idle_ttl_secs: 1800,
        recorded_at: 42,
    };
    let mut log = String::new();
    log.push_str(&journal_entry(&circuit_line(&rec)));
    log.push_str(&journal_entry(&circuit_line(&rec)));
    let rows = journal_lines(&log).iter().map(|l| read_circuit(l)).collect();
    let got = load_circuit_records(rows).records;
    assert_eq!(got.len(), 2);
    assert_eq!(got[0], rec);
    assert_ne!(circuit_log_path("/s", "r1"), circuit_log_path("/s", "r2"));
}

#[test]
fn gate_exec_append_then_load_round_trips_and_missing_is_empty() {
    assert!(load_gate_exec_records(Vec::new()).records.is_empty());
    let rec = || GateExecRecord {
        verdict: "auto_exec".to_string(),
        task: "t1".to_string(),
        risk: Some("low".to_string()),
        reversible: Some(true),
        policy_is_auto: true,
        recorded_at: 7,
    };
    let got = load_gate_exec_records(vec![Some(rec()), Some(rec())]).records;
    assert_eq!(got.len(), 2);
    assert_eq!(got[0], rec());
    assert_ne!(gate_exec_log_path("/s", "r1"), gate_exec_log_path("/s", "r2"));
}

#[test]
fn corrupt_lines_are_skipped() {
    let good = journal_entry(&decision_line(&decision("ok?", 1)));
    let log = format!("{good}{{not valid json\n{good}");
    let rows = journal_lines(&log).iter().map(|l| read_decision(l)).collect();
    let got = load_decisions(rows);
    assert_eq!(got.records.len(), 2, "the corrupt middle line must be skipped");
    assert_eq!(got.skipped, 1);
    assert_eq!(
        incomplete_warning("gate-decisions", got.skipped, "/s/d.jsonl").as_deref(),
        Some(
            "warning: gate-decisions: skipped 1 unreadable line(s) in /s/d.jsonl — the history \
             shown is incomplete"
        )
    );
    assert_eq!(incomplete_warning("gate-decisions", 0, "/s/d.jsonl"), None);
}

#[test]
fn blank_lines_hold_no_record() {
    assert_eq!(journal_lines("a\n\n  \nb\r\n"), vec!["a".to_string(), "b".to_string()]);
}

#[test]
fn an_outcome_says_whether_anything_was_inspected() {
    for (outcome, slug, inspected) in [
        (DiffRiskOutcome::NoWorktree, "no-worktree", false),
        (DiffRiskOutcome::NoDiff, "no-diff", false),
        (DiffRiskOutcome::ClassifiedNotHigh, "classified-not-high", true),
        (DiffRiskOutcome::Recorded, "recorded", true),
        (DiffRiskOutcome::Undetermined, "undetermined", true),
        (DiffRiskOutcome::RecordFailed, "record-failed", true),
    ] {
        assert_eq!(outcome.as_str(), slug);
        assert_eq!(outcome.inspected(), inspected);
    }
    let rec = DiffRiskRecord {
        outcome: DiffRiskOutcome::Recorded.as_str().to_string(),
        inspected: true,
        run_id: "r1".to_string(),
        task_id: "t1".to_string(),
        changed_symbols: Some(2),
        caller_sites: Some(3),
        recorded_at: 9,
    };
    let got = load_diffrisk_outcomes(vec![None, Some(rec)]);
    assert_eq!(got.skipped, 1);
    assert_eq!(got.records[0].changed_symbols, Some(2));
}

#[test]
fn the_logs_lie_apart() {
    assert!(decisions_path("/s").starts_with("/s/"));
    assert!(diffrisk_outcomes_path("/s").starts_with("/s/"));
    assert_ne!(decisions_path("/s"), diffrisk_outcomes_path("/s"));
}
