use condukt::circuit::{
    circuit_report, decide_circuit, gather_idle_secs, max_updated_at, run_circuit_check,
    trailing_failure_streak, CircuitReason, CircuitVerdict,
};
use condukt::state::{RunState, Status, TaskState};
use condukt::verdict::Determination;

const NOW: i64 = 1_700_000_000;

fn task(id: &str, status: Status, updated_at: Option<i64>) -> TaskState {
    TaskState { id: id.to_string(), status, updated_at, ..Default::default() }
}

fn run_with(run_id: &str, tasks: Vec<TaskState>) -> RunState {
    RunState {
        run_id: run_id.to_string(),
        goal: "g".to_string(),
        tasks,
        paused: false,
        terminal_label: None,
        recorded_at: None,
    }
}

#[test]
fn budget_over_cap_trips() {
    let v = decide_circuit(0, 5, true, Determination::known(0), 60);
    assert_eq!(v, CircuitVerdict::Trip(CircuitReason::BudgetOverCap));
}

#[test]
fn failure_streak_trips() {
    let v = decide_circuit(5, 5, false, Determination::known(0), 60);
    assert_eq!(v, CircuitVerdict::Trip(CircuitReason::FailureStreak));
}

#[test]
fn stall_trips() {
    let v = decide_circuit(0, 5, false, Determination::known(60), 60);
    assert_eq!(v, CircuitVerdict::Trip(CircuitReason::Stall));
    if let CircuitVerdict::Trip(reason) = v {
        assert_eq!(reason.as_str(), "stall");
    } else {
        panic!("expected a Trip verdict");
    }
}

#[test]
fn no_condition_holds_continues() {
    let v = decide_circuit(2, 5, false, Determination::known(30), 60);
    assert_eq!(v, CircuitVerdict::Continue);
}

#[test]
fn streak_equal_to_cap_trips() {
    assert_eq!(
        decide_circuit(5, 5, false, Determination::known(0), 0),
        CircuitVerdict::Trip(CircuitReason::FailureStreak)
    );
}

#[test]
fn streak_one_below_cap_does_not_trip() {
    assert_eq!(
        decide_circuit(4, 5, false, Determination::known(0), 0),
        CircuitVerdict::Continue
    );
}

#[test]
fn idle_equal_to_ttl_trips() {
    assert_eq!(
        decide_circuit(0, 0, false, Determination::known(60), 60),
        CircuitVerdict::Trip(CircuitReason::Stall)
    );
}

#[test]
fn idle_one_below_ttl_does_not_trip() {
    assert_eq!(
        decide_circuit(0, 0, false, Determination::known(59), 60),
        CircuitVerdict::Continue
    );
}

#[test]
fn streak_cap_zero_never_trips_on_streak() {
    assert_eq!(
        decide_circuit(u32::MAX, 0, false, Determination::known(0), 0),
        CircuitVerdict::Continue
    );
}

#[test]
fn idle_ttl_zero_never_trips_on_stall() {
    assert_eq!(
        decide_circuit(0, 0, false, Determination::known(i64::MAX), 0),
        CircuitVerdict::Continue
    );
}

#[test]
fn budget_beats_streak_and_stall() {
    let v = decide_circuit(10, 5, true, Determination::known(100), 60);
    assert_eq!(v, CircuitVerdict::Trip(CircuitReason::BudgetOverCap));
    assert_eq!(
        match &v {
            CircuitVerdict::Trip(r) => r.as_str(),
            _ => "continue",
        },
        "budget_over_cap"
    );
}

#[test]
fn streak_beats_stall() {
    let v = decide_circuit(10, 5, false, Determination::known(100), 60);
    assert_eq!(v, CircuitVerdict::Trip(CircuitReason::FailureStreak));
}

#[test]
fn decide_circuit_is_deterministic() {
    let v1 = decide_circuit(10, 5, false, Determination::known(100), 60);
    let v2 = decide_circuit(10, 5, false, Determination::known(100), 60);
    assert_eq!(v1, v2);
}

#[test]
fn reason_slugs_are_stable() {
    assert_eq!(CircuitReason::FailureStreak.as_str(), "failure_streak");
    assert_eq!(CircuitReason::BudgetOverCap.as_str(), "budget_over_cap");
    assert_eq!(CircuitReason::Stall.as_str(), "stall");
}

#[test]
fn trailing_streak_counts_only_the_most_recent_run_of_failures() {
    let run = run_with(
        "r",
        vec![
            task("a", Status::Failed, Some(1)),
            task("d", Status::Failed, Some(4)),
            task("b", Status::Verified, Some(2)),
            task("c", Status::Failed, Some(3)),
        ],
    );
    assert_eq!(trailing_failure_streak(&run), 2);
}

#[test]
fn tasks_without_a_time_come_first_and_ties_keep_their_places() {
    let run = run_with(
        "r",
        vec![
            task("a", Status::Failed, Some(7)),
            task("b", Status::Verified, None),
            task("c", Status::Failed, Some(7)),
        ],
    );
    assert_eq!(trailing_failure_streak(&run), 2);
    let tied = run_with(
        "r",
        vec![task("a", Status::Verified, Some(7)), task("b", Status::Failed, Some(7))],
    );
    assert_eq!(trailing_failure_streak(&tied), 1);
    let turned = run_with(
        "r",
        vec![task("b", Status::Failed, Some(7)), task("a", Status::Verified, Some(7))],
    );
    assert_eq!(trailing_failure_streak(&turned), 0);
}

#[test]
fn max_updated_at_picks_the_latest_progress() {
    let run = run_with(
        "r",
        vec![
            task("a", Status::Failed, Some(10)),
            task("b", Status::Done, Some(42)),
            task("c", Status::Pending, None),
        ],
    );
    assert_eq!(max_updated_at(&run), Some(42));
    let none = run_with("r", vec![task("a", Status::Pending, None)]);
    assert_eq!(max_updated_at(&none), None);
}

#[test]
fn failure_streak_over_cap_trips_with_nonzero_exit() {
    let run = run_with(
        "trip-run",
        vec![
            task("a", Status::Failed, Some(NOW - 3)),
            task("b", Status::Failed, Some(NOW - 2)),
            task("c", Status::Failed, Some(NOW - 1)),
        ],
    );
    let check = run_circuit_check(Some(&run), 3, 1800, false, NOW);
    assert_eq!(check.exit_code, 1, "beyond-cap failure streak must trip (exit 1)");
    assert_eq!(check.record.verdict, "trip");
    assert_eq!(check.record.reason.as_deref(), Some("failure_streak"));
    assert_eq!(check.record.streak, 3);
}

#[test]
fn healthy_run_continues_with_zero_exit() {
    let run = run_with(
        "healthy",
        vec![
            task("a", Status::Verified, Some(NOW - 5)),
            task("b", Status::Running, Some(NOW)),
        ],
    );
    let check = run_circuit_check(Some(&run), 3, 1800, false, NOW);
    assert_eq!(check.exit_code, 0, "a healthy run must continue (exit 0)");
    assert_eq!(check.record.verdict, "continue");
    assert_eq!(check.record.recorded_at, NOW);
}

#[test]
fn missing_run_trips_as_unmeasured_rather_than_continuing() {
    let check = run_circuit_check(None, 3, 1800, false, NOW);
    assert_eq!(
        check.exit_code, 1,
        "an unloadable run's idleness is unmeasurable, which must not exit 0"
    );
    assert_eq!(check.record.reason.as_deref(), Some("idle_unmeasured"));
}

#[test]
fn missing_run_with_the_idle_axis_opted_out_still_continues() {
    let check = run_circuit_check(None, 3, 0, false, NOW);
    assert_eq!(check.exit_code, 0);
}

#[test]
fn stale_run_trips_on_stall() {
    let run = run_with("stale", vec![task("a", Status::Running, Some(NOW - 7200))]);
    let check = run_circuit_check(Some(&run), 3, 1800, false, NOW);
    assert_eq!(check.exit_code, 1);
    assert_eq!(check.record.reason.as_deref(), Some("stall"));
}

#[test]
fn unmeasurable_idle_trips_instead_of_continuing() {
    let v = decide_circuit(
        0,
        5,
        false,
        Determination::undetermined("no task carries an updated_at"),
        1800,
    );
    assert_eq!(v, CircuitVerdict::Trip(CircuitReason::IdleUnmeasured));
}

#[test]
fn unmeasurable_idle_is_a_different_answer_from_a_measured_zero() {
    assert_eq!(
        decide_circuit(0, 5, false, Determination::known(0), 1800),
        CircuitVerdict::Continue
    );
    assert_ne!(
        decide_circuit(
            0,
            5,
            false,
            Determination::undetermined("run state could not be loaded"),
            1800
        ),
        CircuitVerdict::Continue
    );
}

#[test]
fn unmeasurable_idle_does_not_trip_when_the_idle_axis_is_opted_out() {
    assert_eq!(
        decide_circuit(0, 5, false, Determination::undetermined("no timestamp"), 0),
        CircuitVerdict::Continue
    );
}

#[test]
fn budget_and_streak_still_outrank_an_unmeasurable_idle() {
    assert_eq!(
        decide_circuit(0, 5, true, Determination::undetermined("no timestamp"), 1800),
        CircuitVerdict::Trip(CircuitReason::BudgetOverCap)
    );
    assert_eq!(
        decide_circuit(5, 5, false, Determination::undetermined("no timestamp"), 1800),
        CircuitVerdict::Trip(CircuitReason::FailureStreak)
    );
}

#[test]
fn idle_unmeasured_slug_is_stable_and_distinct_from_stall() {
    assert_eq!(CircuitReason::IdleUnmeasured.as_str(), "idle_unmeasured");
    assert_ne!(
        CircuitReason::IdleUnmeasured.as_str(),
        CircuitReason::Stall.as_str()
    );
}

#[test]
fn gather_idle_is_known_from_the_latest_progress_timestamp() {
    let run = run_with("r", vec![task("a", Status::Running, Some(100))]);
    assert_eq!(gather_idle_secs(Some(&run), 160), Determination::known(60));
}

#[test]
fn gather_idle_clamps_clock_skew_to_zero_but_stays_known() {
    let run = run_with("r", vec![task("a", Status::Running, Some(200))]);
    assert_eq!(gather_idle_secs(Some(&run), 100), Determination::known(0));
}

#[test]
fn gather_idle_is_undetermined_when_no_task_carries_a_timestamp() {
    let run = run_with("r", vec![task("a", Status::Running, None)]);
    match gather_idle_secs(Some(&run), 100) {
        Determination::Undetermined(why) => {
            assert!(!why.as_str().is_empty(), "an undetermined idle must carry why");
        }
        Determination::Known(secs) => {
            panic!("a run with no updated_at must not yield a measurement ({secs})")
        }
    }
}

#[test]
fn gather_idle_is_undetermined_when_the_run_could_not_be_loaded() {
    match gather_idle_secs(None, 100) {
        Determination::Undetermined(why) => {
            assert!(!why.as_str().is_empty());
        }
        Determination::Known(secs) => {
            panic!("an unloadable run must not yield a measurement ({secs})")
        }
    }
}

#[test]
fn gather_idle_is_undetermined_for_a_run_with_no_tasks_at_all() {
    let run = run_with("r", vec![]);
    assert!(matches!(
        gather_idle_secs(Some(&run), 100),
        Determination::Undetermined(_)
    ));
}

#[test]
fn report_emits_null_idle_secs_when_idleness_was_not_measured() {
    let idle = Determination::undetermined("no task carries an updated_at");
    let v = decide_circuit(0, 5, false, idle.clone(), 1800);
    let out = circuit_report(&v, 0, 5, false, &idle, 1800);
    assert!(
        out.idle_secs.is_none(),
        "unmeasured idleness must be reported as absent, got {out:?}"
    );
    assert_eq!(out.verdict, "trip");
    assert_eq!(out.reason.as_deref(), Some("idle_unmeasured"));
    assert_eq!(
        out.idle_unknown_reason.as_deref(),
        Some("no task carries an updated_at")
    );
}

#[test]
fn report_emits_a_real_zero_as_zero_not_null() {
    let idle = Determination::known(0);
    let v = decide_circuit(0, 5, false, idle.clone(), 1800);
    let out = circuit_report(&v, 0, 5, false, &idle, 1800);
    assert_eq!(out.idle_secs, Some(0));
    assert_eq!(out.verdict, "continue");
    assert!(out.idle_unknown_reason.is_none());
}

#[test]
fn report_emits_a_measured_idle_unchanged() {
    let idle = Determination::known(42);
    let v = decide_circuit(0, 5, false, idle.clone(), 1800);
    let out = circuit_report(&v, 0, 5, false, &idle, 1800);
    assert_eq!(out.idle_secs, Some(42));
}

#[test]
fn run_without_any_timestamp_trips_as_unmeasured_not_silent_continue() {
    let run = run_with("no-ts", vec![task("a", Status::Running, None)]);
    let check = run_circuit_check(Some(&run), 3, 1800, false, NOW);
    assert_eq!(
        check.exit_code, 1,
        "unmeasurable idleness must not exit 0 (that is the fail-open)"
    );
    assert_eq!(check.record.verdict, "trip");
    assert_eq!(check.record.reason.as_deref(), Some("idle_unmeasured"));
    assert_eq!(check.record.idle_secs, 0);
    assert_eq!(check.report.idle_secs, None);
}

#[test]
fn a_budget_over_its_cap_is_reported_and_journaled() {
    let run = run_with("r", vec![task("a", Status::Running, Some(NOW))]);
    let check = run_circuit_check(Some(&run), 3, 1800, true, NOW);
    assert_eq!(check.verdict, CircuitVerdict::Trip(CircuitReason::BudgetOverCap));
    assert!(check.record.budget_over_cap && check.report.budget_over_cap);
    assert_eq!(check.report.streak_cap, 3);
    assert_eq!(check.report.idle_ttl_secs, 1800);
}

#[test]
fn only_the_latest_change_is_measured() {
    let far = task("old", Status::Pending, Some(i64::MIN));
    let run = run_with("r", vec![far, task("new", Status::Running, Some(NOW - 60))]);
    assert_eq!(gather_idle_secs(Some(&run), NOW), Determination::known(60));
    assert_eq!(run_circuit_check(Some(&run), 3, 1800, false, NOW).exit_code, 0);
}
