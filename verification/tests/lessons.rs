use condukt::lessons::{harvest, harvest_text};
use condukt::state::{RunState, Status, TaskState};

fn task(id: &str, status: Status, findings: Option<&str>) -> TaskState {
    TaskState {
        id: id.to_string(),
        status,
        findings: findings.map(|s| s.to_string()),
        ..Default::default()
    }
}

fn run_of(rid: &str, goal: &str, tasks: Vec<TaskState>) -> RunState {
    RunState {
        run_id: rid.to_string(),
        goal: goal.to_string(),
        tasks,
        paused: false,
        terminal_label: None,
        recorded_at: None,
    }
}

#[test]
fn harvest_emits_goal_titles_done_criteria_status_and_findings() {
    let run = run_of(
        "run-harvest-001",
        "close the write->retrieve loop",
        vec![
            task("t1", Status::Verified, Some("prefer word-boundary match")),
            task("t2", Status::Failed, None),
        ],
    );
    let plan = r#"{"goal":"close the write->retrieve loop","tasks":[
            {"id":"t1","title":"add harvest subcommand","done_criteria":"emits JSON facts"},
            {"id":"t2","title":"wire SKILL Phase-8","done_criteria":"append via fugu"}]}"#;

    let v = harvest_text(Some(&run), Some(plan)).expect("facts");
    assert_eq!(v.run_id, "run-harvest-001");
    assert_eq!(v.goal, "close the write->retrieve loop");

    assert_eq!(v.tasks.len(), 2);
    assert_eq!(v.tasks[0].id, "t1");
    assert_eq!(v.tasks[0].status, "verified");
    assert_eq!(v.tasks[0].title.as_deref(), Some("add harvest subcommand"));
    assert_eq!(v.tasks[0].done_criteria.as_deref(), Some("emits JSON facts"));
    assert_eq!(v.tasks[0].findings.as_deref(), Some("prefer word-boundary match"));
    assert_eq!(v.tasks[1].status, "failed");
    assert!(v.tasks[1].findings.is_none());

    assert_eq!(v.reasons.len(), 1);
    assert_eq!(v.reasons[0], "prefer word-boundary match");
}

#[test]
fn harvest_missing_run_is_fail_soft_empty_object() {
    assert!(harvest(None, &None).is_none());
    assert!(harvest_text(None, Some("{}")).is_none());
}

#[test]
fn harvest_without_decomposition_still_emits_tasks_with_null_titles() {
    let run = run_of("run-harvest-nodecomp", "g", vec![task("t1", Status::Verified, None)]);
    let v = harvest_text(Some(&run), None).expect("facts");
    assert_eq!(v.tasks.len(), 1);
    assert!(v.tasks[0].title.is_none());
    assert!(v.tasks[0].done_criteria.is_none());
    assert_eq!(v.tasks[0].status, "verified");
}

#[test]
fn an_unreadable_plan_is_like_none() {
    let run = run_of("r", "g", vec![task("t1", Status::Done, Some("  "))]);
    let v = harvest_text(Some(&run), Some("{not json")).expect("facts");
    assert!(v.tasks[0].title.is_none());
    assert!(v.reasons.is_empty(), "a blank finding is no reason");
}
