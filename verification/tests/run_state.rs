use condukt::claim::{ClaimOutcome, Registry};
use condukt::model::{Decomposition, Task};
use condukt::oracle::{verdict_from_oracle, OracleVerdict};
use condukt::run_state::{
    abandon, abandon_ids, abandon_line, cancel, capture_branch_shas, change_line, claim_exit,
    claim_list, criteria_step, files_to_claim, files_to_release, gate_call, gate_said, init_run,
    is_claimed, oracle_call, reconcile, resolve_label, restore_checkpoint, resume_context, run_dir,
    run_line, set_task, unsettled_criteria, Change, CriteriaStep, Evidence, SetDone, SetRequest,
    SetStop,
};
use condukt::state::{RunState, Status, TaskState};

const NOW: i64 = 1_700_000_000;

fn make_run(worktree: Option<&str>, branch: Option<&str>) -> RunState {
    RunState {
        run_id: "r1".to_string(),
        goal: "g".to_string(),
        tasks: vec![TaskState {
            id: "t1".to_string(),
            status: Status::Pending,
            worktree: worktree.map(|s| s.to_string()),
            branch: branch.map(|s| s.to_string()),
            ..Default::default()
        }],
        paused: false,
        terminal_label: None,
        recorded_at: None,
    }
}

fn request(status: Status) -> SetRequest {
    SetRequest {
        status,
        worktree: None,
        branch: None,
        clear_worktree: false,
        clear_branch: false,
        model: None,
        cost_usd_bits: None,
    }
}

fn plan() -> Decomposition {
    Decomposition {
        goal: "g".to_string(),
        tasks: vec![
            Task {
                id: "t1".to_string(),
                kind: Some("fix".to_string()),
                reproduction_tests: Some("cargo test -p x".to_string()),
                touched_files: vec!["src/a.rs".to_string()],
                done_criteria: Some("tests pass".to_string()),
                ..Default::default()
            },
            Task { id: "t2".to_string(), ..Default::default() },
        ],
    }
}

fn refused() -> OracleVerdict {
    verdict_from_oracle(false, Some("pass_to_pass"))
}

#[test]
fn state_set_none_does_not_overwrite_worktree_or_branch() {
    let mut rs = make_run(Some("/path/to/tree"), Some("feature/x"));
    let done = set_task(
        &mut rs,
        "r1",
        "t1",
        &request(Status::Running),
        0,
        None,
        None,
        NOW,
    );
    assert!(done.is_ok());
    let t = &rs.tasks[0];
    assert_eq!(
        t.worktree.as_deref(),
        Some("/path/to/tree"),
        "worktree must be preserved"
    );
    assert_eq!(
        t.branch.as_deref(),
        Some("feature/x"),
        "branch must be preserved"
    );
    assert_eq!(t.status, Status::Running);
    assert!(t.updated_at.is_some());
}

#[test]
fn state_set_clear_flags_erase_worktree_and_branch() {
    let mut rs = make_run(Some("/path/to/tree"), Some("feature/x"));
    let req = SetRequest {
        clear_worktree: true,
        clear_branch: true,
        ..request(Status::Pending)
    };
    assert!(set_task(&mut rs, "r1", "t1", &req, 0, None, None, NOW).is_ok());
    let t = &rs.tasks[0];
    assert!(t.worktree.is_none(), "worktree must be cleared");
    assert!(t.branch.is_none(), "branch must be cleared");
}

#[test]
fn a_branch_notes_its_first_commit() {
    let mut rs = make_run(None, None);
    let req = SetRequest { branch: Some("feature/x".to_string()), ..request(Status::Running) };
    set_task(&mut rs, "r1", "t1", &req, 0, None, Some("abc123\n"), NOW).unwrap();
    assert_eq!(rs.tasks[0].branch_sha.as_deref(), Some("abc123"));
    set_task(&mut rs, "r1", "t1", &req, 0, None, Some("def456\n"), NOW).unwrap();
    assert_eq!(rs.tasks[0].branch_sha.as_deref(), Some("abc123"));
}

#[test]
fn a_held_file_keeps_a_task_from_running() {
    let mut rs = make_run(None, None);
    let stop = set_task(&mut rs, "r1", "t1", &request(Status::Running), 2, None, None, NOW);
    assert_eq!(
        stop,
        Err(SetStop::Skipped(
            "condukt: task 't1' skipped — 2 file(s) already claimed by a live run".to_string()
        ))
    );
    assert_eq!(rs.tasks[0].status, Status::Pending);
    assert_eq!(rs.tasks[0].updated_at, None);
}

#[test]
fn a_refused_oracle_keeps_a_task_from_being_verified() {
    let mut rs = make_run(None, None);
    let verdict = refused();
    let req = request(Status::Verified);
    match set_task(&mut rs, "r1", "t1", &req, 0, Some(&verdict), None, NOW) {
        Err(SetStop::Refused(why)) => {
            assert!(why.starts_with("refusing to verify task 't1'"), "{why}")
        }
        other => panic!("expected a refusal, got {other:?}"),
    }
    assert_eq!(rs.tasks[0].status, Status::Pending);

    let good = verdict_from_oracle(true, Some("fail_to_pass"));
    let done = set_task(&mut rs, "r1", "t1", &req, 0, Some(&good), None, NOW).unwrap();
    assert_eq!(done, SetDone { index: 0, rollback: false, release: true });
    assert_eq!(rs.tasks[0].fp_oracle_valid, Some(true));
}

#[test]
fn a_task_that_falls_back_rolls_the_run_back() {
    let mut rs = make_run(None, None);
    set_task(&mut rs, "r1", "t1", &request(Status::Verified), 0, None, None, NOW).unwrap();
    let done =
        set_task(&mut rs, "r1", "t1", &request(Status::Failed), 0, None, None, NOW).unwrap();
    assert!(done.rollback && done.release);
}

#[test]
fn an_unknown_task_is_refused() {
    let mut rs = make_run(None, None);
    match set_task(&mut rs, "r1", "nope", &request(Status::Done), 0, None, None, NOW) {
        Err(SetStop::NoTask(why)) => assert_eq!(why, "no task 'nope' in run 'r1'"),
        other => panic!("expected no task, got {other:?}"),
    }
}

#[test]
fn a_seeded_run_holds_the_plan() {
    let rs = init_run(&plan(), &Vec::new(), "r9", Some("/dev/pts/1")).unwrap();
    assert_eq!(rs.run_id, "r9");
    assert_eq!(rs.tasks.len(), 2);
    assert_eq!(rs.tasks[1].id, "t2");
    assert!(rs.tasks.iter().all(|t| t.status == Status::Pending));
    assert_eq!(rs.terminal_label.as_deref(), Some("/dev/pts/1"));
    let errors = vec!["cycle".to_string(), "dup".to_string()];
    assert!(init_run(&plan(), &errors, "r9", None).is_err());
}

#[test]
fn a_terminal_has_a_label() {
    assert_eq!(resolve_label(Some((true, "/dev/pts/1\n")), 7).as_deref(), Some("/dev/pts/1"));
    assert_eq!(resolve_label(Some((true, "not a tty\n")), 7).as_deref(), Some("pid-7"));
    assert_eq!(resolve_label(Some((false, "")), 7).as_deref(), Some("pid-7"));
    assert_eq!(resolve_label(None, 7).as_deref(), Some("pid-7"));
}

#[test]
fn files_are_claimed_to_run_and_released_at_the_end() {
    let p = plan();
    assert_eq!(files_to_claim(Status::Running, Some(&p), "t1"), vec!["src/a.rs"]);
    assert!(files_to_claim(Status::Done, Some(&p), "t1").is_empty());
    for end in [Status::Verified, Status::Failed, Status::Cancelled] {
        assert_eq!(files_to_release(end, Some(&p), "t1"), vec!["src/a.rs"]);
    }
    assert!(files_to_release(Status::Running, Some(&p), "t1").is_empty());
    assert_eq!(claim_list(vec!["x".to_string()], Some(&p)), vec!["x"]);
    assert_eq!(claim_list(Vec::new(), Some(&p)), vec!["src/a.rs"]);
}

#[test]
fn the_oracle_is_asked_where_the_work_is_done() {
    let rs = make_run(Some("/wt"), None);
    assert_eq!(run_dir(&rs, "t1", "/repo"), "/wt");
    assert_eq!(run_dir(&rs, "t2", "/repo"), "/repo");
    let call = oracle_call(&plan(), &rs, "r1", "t1", "/repo").unwrap();
    assert!(call.requires_oracle);
    assert_eq!(call.reproduction_tests.as_deref(), Some("cargo test -p x"));
    assert_eq!(call.run_dir, "/wt");
    assert!(oracle_call(&plan(), &rs, "r1", "t9", "/repo").is_err());
    let p = plan();
    assert!(gate_call(Status::Verified, Some(&p), &rs, "r1", "t1", "/repo").is_some());
    assert!(gate_call(Status::Done, Some(&p), &rs, "r1", "t1", "/repo").is_none());
    assert!(gate_call(Status::Verified, None, &rs, "r1", "t1", "/repo").is_none());
}

#[test]
fn only_a_running_or_failed_task_is_freed() {
    let mut rs = make_run(Some("/wt"), Some("b"));
    assert_eq!(
        abandon_ids(&rs, "r1", Some("t1"), false, Vec::new()),
        Err("task 't1' has status Pending; only running/failed tasks can be abandoned".to_string())
    );
    rs.tasks[0].status = Status::Running;
    let ids = abandon_ids(&rs, "r1", Some("t1"), false, Vec::new()).unwrap();
    abandon(&mut rs, "r1", &ids).unwrap();
    assert_eq!(rs.tasks[0].status, Status::Pending);
    assert!(rs.tasks[0].worktree.is_none() && rs.tasks[0].branch.is_none());
    assert_eq!(abandon_line(&ids), "abandoned 1 task(s): t1");
    assert_eq!(abandon_line(&Vec::new()), "nothing to abandon");
    assert_eq!(
        abandon_ids(&rs, "r1", None, false, Vec::new()),
        Err("specify --task <id> or --all-stuck".to_string())
    );
    assert_eq!(
        abandon_ids(&rs, "r1", None, true, vec!["t1".to_string()]),
        Ok(vec!["t1".to_string()])
    );
    let missing = vec!["t1".to_string(), "t9".to_string(), "t8".to_string()];
    assert_eq!(
        abandon(&mut rs, "r1", &missing),
        Err("task 't9' not found in run 'r1'".to_string()),
        "the first name that is missing is reported"
    );
}

#[test]
fn a_verified_task_is_not_called_off() {
    let mut rs = make_run(Some("/wt"), None);
    rs.tasks[0].status = Status::Verified;
    assert_eq!(
        cancel(&mut rs, "r1", "t1", NOW),
        Err("task 't1' is already verified and cannot be cancelled".to_string())
    );
    rs.tasks[0].status = Status::Done;
    let done = cancel(&mut rs, "r1", "t1", NOW).unwrap();
    assert!(done.changed);
    assert_eq!(done.message, "cancelled task 't1' (was Done)");
    assert_eq!(rs.tasks[0].worktree, None);
    assert_eq!(rs.tasks[0].updated_at, Some(NOW));
    let again = cancel(&mut rs, "r1", "t1", NOW + 1).unwrap();
    assert!(!again.changed);
    assert_eq!(again.message, "task 't1' is already cancelled");
    assert_eq!(rs.tasks[0].updated_at, Some(NOW));
    assert!(cancel(&mut rs, "r1", "t9", NOW).is_err());
}

#[test]
fn a_stopped_run_tells_of_every_task() {
    let task = |id: &str, status: Status| TaskState {
        id: id.to_string(),
        status,
        ..Default::default()
    };
    let mut rs = make_run(None, None);
    rs.tasks = vec![
        task("t1", Status::Running),
        task("t2", Status::Pending),
        task("t3", Status::Failed),
        task("t4", Status::Done),
        task("t5", Status::Verified),
        task("t6", Status::Cancelled),
    ];
    let c = resume_context(&rs, &plan());
    assert_eq!(c.total_count, 6);
    assert_eq!(c.verified_count, 2);
    assert_eq!(c.pending_tasks.len(), 2);
    assert_eq!(c.pending_tasks[0].status, "running");
    assert_eq!(c.pending_tasks[1].planned, Some(1));
    assert_eq!(c.failed_tasks[0].id, "t3");
    assert_eq!(c.failed_tasks[0].planned, None);
    assert_eq!(c.needs_verification[0].id, "t4");
}

#[test]
fn a_run_is_told_of_in_one_line() {
    let mut rs = make_run(None, None);
    assert_eq!(run_line(&rs, 1, 2), "r1\t1/2\tg");
    rs.paused = true;
    rs.terminal_label = Some("pid-7".to_string());
    assert_eq!(run_line(&rs, 0, 10), "r1\t0/10\tg [paused] @pid-7");
}

#[test]
fn the_gate_of_a_run_lists_what_it_lacks() {
    let pass = gate_said("r1", &Vec::new());
    assert_eq!(pass.exit_code, 0);
    assert_eq!(pass.lines, vec!["gate PASS: run 'r1' complete"]);
    let fail = gate_said("r1", &vec!["a".to_string(), "b".to_string()]);
    assert_eq!(fail.exit_code, 1);
    assert_eq!(fail.lines, vec!["gate FAIL (2 reason(s)):", "  - a", "  - b"]);
}

#[test]
fn reconciling_says_what_it_did() {
    let mut c = Change {
        task_id: "t1".to_string(),
        old_status: Status::Running,
        new_status: Status::Failed,
        reason: "worktree gone".to_string(),
    };
    assert_eq!(change_line(&c), "  [t1]  Running → Failed  (worktree gone)");
    c.new_status = Status::Running;
    assert_eq!(change_line(&c), "  [t1]  worktree gone (status unchanged: Running)");
    let none = reconcile("r1", 0, false, 0, 1);
    assert!(!none.save);
    assert_eq!(none.line, "reconcile: nothing to change for run 'r1'");
    let dry = reconcile("r1", 2, true, 0, 1);
    assert!(!dry.save);
    assert_eq!(dry.line, "dry-run: 2 change(s) would be applied");
    let real = reconcile("r1", 2, false, 1, 3);
    assert!(real.save);
    assert_eq!(real.line, "reconcile: applied 2 change(s) — run 'r1': 1/3 verified");
}

#[test]
fn claims_are_told_by_the_exit_code() {
    let clean = ClaimOutcome { claimed: vec!["a".to_string()], skipped: Vec::new() };
    assert_eq!(claim_exit(&clean), 0);
    let held = is_claimed(&Registry::default(), "hk-1");
    assert!(!held.claimed);
    assert_eq!(held.holder_run, None);
    assert_eq!(held.exit_code, 1);
}

#[test]
fn criteria_are_classified_where_there_are_any() {
    assert_eq!(
        criteria_step(&plan(), "r1", "t1"),
        CriteriaStep::Classify("tests pass".to_string())
    );
    assert_eq!(criteria_step(&plan(), "r1", "t2"), CriteriaStep::Nothing);
    assert!(matches!(criteria_step(&plan(), "r1", "t9"), CriteriaStep::NoTask(_)));
    let passed = Evidence {
        cmd: vec!["true".to_string()],
        passed: true,
        output: String::new(),
    };
    let report = unsettled_criteria(true, Some(passed));
    assert!(report.mechanical && report.behavioral);
    assert!(!report.skip_verifier, "evidence never skips the verifier");
}

#[test]
fn a_checkpoint_puts_worktrees_back() {
    let mut rs = make_run(Some("/wt"), Some("b"));
    rs.tasks.push(TaskState { id: "t2".to_string(), ..Default::default() });
    let shas = capture_branch_shas(&rs, &vec![Some("abc\n".to_string()), Some("x".to_string())]);
    assert_eq!(shas.len(), 1);
    assert_eq!(shas[0].task_id, "t1");
    assert_eq!(shas[0].sha, "abc");
    let resets = restore_checkpoint(&rs, &shas);
    assert_eq!(resets.len(), 1);
    assert_eq!(resets[0].worktree, "/wt");
    assert_eq!(resets[0].sha, "abc");
    assert!(capture_branch_shas(&rs, &vec![None, None]).is_empty());
}
