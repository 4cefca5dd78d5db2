use condukt::claim::Claim;
use condukt::progress::{
    claim_progress, head_plan, run_task_progress_signal, run_worktree_head_signal, TaskHead,
};
use condukt::state::{RunState, Status, TaskState};
use condukt::verdict::Determination;

fn task(id: &str, worktree: Option<&str>, updated_at: Option<i64>) -> TaskState {
    TaskState {
        id: id.to_string(),
        status: Status::Running,
        worktree: worktree.map(|s| s.to_string()),
        updated_at,
        ..Default::default()
    }
}

fn run(tasks: Vec<TaskState>) -> RunState {
    RunState {
        run_id: "r".to_string(),
        goal: "g".to_string(),
        tasks,
        paused: false,
        terminal_label: None,
        recorded_at: None,
    }
}

fn claim(session: Option<&str>) -> Claim {
    Claim {
        run_id: "r".to_string(),
        session_id: session.map(|s| s.to_string()),
        pid: 424_242,
        claimed_at: 0,
        heartbeat_at: 0,
        title: None,
    }
}

fn head(sha: &str) -> Determination<Vec<u8>> {
    Determination::Known(sha.as_bytes().to_vec())
}

/// The heads of a run's worktrees, where each worktree's head is its own path.
fn signal(rs: &RunState) -> Determination<Vec<TaskHead>> {
    let plan = head_plan(rs);
    let heads = plan.iter().map(|t| head(&t.worktree)).collect();
    run_worktree_head_signal(&rs.run_id, &plan, &heads)
}

#[test]
fn the_order_of_the_tasks_does_not_move_the_signal() {
    let a = run(vec![task("t-a", Some("/a"), Some(9_000)), task("t-b", Some("/b"), Some(9_000))]);
    let b = run(vec![task("t-b", Some("/b"), Some(9_000)), task("t-a", Some("/a"), Some(9_000))]);
    assert_eq!(signal(&a), signal(&b));
    let plan = head_plan(&b);
    assert_eq!(plan[0].task_id, "t-a");
    assert_eq!(plan[1].task_id, "t-b");
}

#[test]
fn the_same_head_under_another_task_moves_the_signal() {
    let a = run(vec![task("t-a", Some("/x"), Some(9_000))]);
    let b = run(vec![task("t-b", Some("/x"), Some(9_000))]);
    assert_ne!(signal(&a), signal(&b));
}

#[test]
fn a_run_without_worktrees_has_no_head_signal() {
    let rs = run(vec![task("t", None, Some(1))]);
    assert!(head_plan(&rs).is_empty());
    match signal(&rs) {
        Determination::Undetermined(why) => assert_eq!(
            why,
            "run r records no task worktree — no run-scoped head signal exists for it"
        ),
        other => panic!("expected no signal, got {other:?}"),
    }
}

#[test]
fn one_unreadable_head_leaves_the_signal_open() {
    let rs = run(vec![task("t-a", Some("/a"), None), task("t-b", Some("/b"), None)]);
    let plan = head_plan(&rs);
    let heads = vec![head("abc"), Determination::undetermined("no HEAD")];
    assert!(matches!(
        run_worktree_head_signal("r", &plan, &heads),
        Determination::Undetermined(_)
    ));
}

#[test]
fn the_latest_change_is_the_signal_of_the_tasks() {
    assert_eq!(
        run_task_progress_signal(&run(vec![task("a", None, Some(5)), task("b", None, Some(9))])),
        "9"
    );
    assert_eq!(run_task_progress_signal(&run(vec![task("a", None, None)])), "0");
}

#[test]
fn the_signals_of_a_claim_are_those_of_its_run() {
    let rs = Ok(run(vec![task("t", Some("/a"), Some(9_000))]));
    let s = claim_progress(&claim(Some("sess")), &rs, &vec![head("abc")], head("log"));
    assert_eq!(s.key, "claim:r");
    assert_eq!(
        s.heads,
        Determination::Known(vec![TaskHead { task_id: "t".to_string(), head: b"abc".to_vec() }])
    );
    assert_eq!(s.transcript, head("log"));
    assert_eq!(s.tasks, Determination::Known("9000".to_string()));
}

#[test]
fn an_unreadable_run_gives_no_signal() {
    let rs = Err("no such run".to_string());
    let s = claim_progress(&claim(None), &rs, &Vec::new(), head("log"));
    assert_eq!(
        s.tasks,
        Determination::Undetermined("run state for r unreadable: no such run".to_string())
    );
    assert!(matches!(s.heads, Determination::Undetermined(_)));
    assert!(matches!(s.transcript, Determination::Undetermined(_)), "no session, no transcript");
}
