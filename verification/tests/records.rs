use condukt::records::{note_recorded, record_args, run_args, runs_to_record, sweep_line, RecordSpec, Sweep};
use condukt::state::RunState;

fn spec(done_criteria: Option<&str>) -> RecordSpec {
    RecordSpec {
        title: "t".to_string(),
        files: vec!["a".to_string(), "b".to_string()],
        class: "parallel".to_string(),
        model: "opus".to_string(),
        status: "verified".to_string(),
        cost_usd: "0.5".to_string(),
        done_criteria: done_criteria.map(|s| s.to_string()),
    }
}

#[test]
fn an_outcome_is_handed_over_by_its_arguments() {
    assert_eq!(
        record_args(&spec(Some("dc")), "fp"),
        vec![
            "record", "--title", "t", "--files", "a,b", "--class", "parallel", "--model", "opus",
            "--status", "verified", "--cost", "0.5", "--done-criteria", "dc",
            "--skill-fingerprint", "fp",
        ]
    );
    assert_eq!(record_args(&spec(None), "").len(), 13);
    assert_eq!(run_args(Some(&vec![spec(None), spec(None)]), "").len(), 2);
    assert!(run_args(None, "fp").is_empty());
}

#[test]
fn one_run_or_all_of_them_are_recorded() {
    let known = || vec!["r1".to_string(), "r2".to_string()];
    assert_eq!(runs_to_record(Some("r9"), true, known()), Ok(vec!["r9".to_string()]));
    assert_eq!(runs_to_record(None, true, known()), Ok(known()));
    assert_eq!(
        runs_to_record(None, false, known()),
        Err("record-run requires --run <id> or --all")
    );
}

#[test]
fn a_sweep_counts_what_went_through() {
    let mut sweep = Sweep::new();
    assert_eq!(sweep_line(&sweep), None);
    let mut rs = RunState {
        run_id: "r".to_string(),
        goal: "g".to_string(),
        tasks: Vec::new(),
        paused: false,
        terminal_label: None,
        recorded_at: None,
    };
    note_recorded(&mut sweep, &mut rs, &vec![true, false, true], 42);
    assert_eq!(rs.recorded_at, Some(42));
    assert_eq!(sweep, Sweep { emitted: 2, recorded_runs: 1 });
    assert_eq!(
        sweep_line(&sweep).as_deref(),
        Some("condukt: recorded 2 outcome(s) from 1 run(s) to fugu-router")
    );
}
