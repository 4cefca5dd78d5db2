//! The circuit breaker: whether an autonomous loop goes on or trips.
//!
//! How long a run has been idle may be unknown. That is an answer of its own: it
//! is never taken for "not idle", and it trips the breaker while the idle axis
//! is on.

use vstd::prelude::*;

use crate::gatelog::CircuitRecord;
use crate::state;
use crate::state::{RunState, Status, TaskView};
use crate::text;
use crate::text::owned;
use crate::verdict::Determination;

verus! {

/// Why the breaker tripped.
#[derive(Debug, Clone, Copy, PartialEq, Eq, Structural)]
pub enum CircuitReason {
    /// Too many tasks failed in a row.
    FailureStreak,
    /// The budget is used up.
    BudgetOverCap,
    /// The run has been idle for too long.
    Stall,
    /// How long the run has been idle could not be measured.
    IdleUnmeasured,
}

/// The slug of a reason.
pub open spec fn slug_of(r: CircuitReason) -> Seq<char> {
    match r {
        CircuitReason::FailureStreak => "failure_streak"@,
        CircuitReason::BudgetOverCap => "budget_over_cap"@,
        CircuitReason::Stall => "stall"@,
        CircuitReason::IdleUnmeasured => "idle_unmeasured"@,
    }
}

impl CircuitReason {
    /// A stable slug for the journal.
    pub fn as_str(&self) -> (r: &'static str)
        ensures
            r@ == slug_of(*self),
    {
        match self {
            CircuitReason::FailureStreak => "failure_streak",
            CircuitReason::BudgetOverCap => "budget_over_cap",
            CircuitReason::Stall => "stall",
            CircuitReason::IdleUnmeasured => "idle_unmeasured",
        }
    }
}

/// Go on, or trip and why.
#[derive(Debug, Clone, Copy, PartialEq, Eq, Structural)]
pub enum CircuitVerdict {
    Continue,
    Trip(CircuitReason),
}

/// The verdict on the signals. The budget outranks the streak and the streak
/// outranks idleness; a cap of zero switches its axis off.
pub open spec fn breaks(
    streak: u32,
    streak_cap: u32,
    budget_over_cap: bool,
    idle: Determination<i64>,
    idle_ttl_secs: i64,
) -> CircuitVerdict {
    if budget_over_cap {
        CircuitVerdict::Trip(CircuitReason::BudgetOverCap)
    } else if streak_cap > 0 && streak >= streak_cap {
        CircuitVerdict::Trip(CircuitReason::FailureStreak)
    } else if idle_ttl_secs <= 0 {
        CircuitVerdict::Continue
    } else {
        match idle {
            Determination::Known(secs) => if secs >= idle_ttl_secs {
                CircuitVerdict::Trip(CircuitReason::Stall)
            } else {
                CircuitVerdict::Continue
            },
            Determination::Undetermined(_) => CircuitVerdict::Trip(CircuitReason::IdleUnmeasured),
        }
    }
}

/// Decides whether to go on.
pub fn decide_circuit(
    streak: u32,
    streak_cap: u32,
    budget_over_cap: bool,
    idle: Determination<i64>,
    idle_ttl_secs: i64,
) -> (r: CircuitVerdict)
    ensures
        r == breaks(streak, streak_cap, budget_over_cap, idle, idle_ttl_secs),
{
    decide(streak, streak_cap, budget_over_cap, &idle, idle_ttl_secs)
}

fn decide(
    streak: u32,
    streak_cap: u32,
    budget_over_cap: bool,
    idle: &Determination<i64>,
    idle_ttl_secs: i64,
) -> (r: CircuitVerdict)
    ensures
        r == breaks(streak, streak_cap, budget_over_cap, *idle, idle_ttl_secs),
{
    if budget_over_cap {
        CircuitVerdict::Trip(CircuitReason::BudgetOverCap)
    } else if streak_cap > 0 && streak >= streak_cap {
        CircuitVerdict::Trip(CircuitReason::FailureStreak)
    } else if idle_ttl_secs <= 0 {
        CircuitVerdict::Continue
    } else {
        match idle {
            Determination::Known(secs) => {
                if *secs >= idle_ttl_secs {
                    CircuitVerdict::Trip(CircuitReason::Stall)
                } else {
                    CircuitVerdict::Continue
                }
            },
            Determination::Undetermined(_) => CircuitVerdict::Trip(CircuitReason::IdleUnmeasured),
        }
    }
}

// ---- the signals of a run ------------------------------------------------

/// When a task last changed; one that does not say counts as the oldest.
pub open spec fn changed_at(t: TaskView) -> i64 {
    match t.updated_at {
        Some(at) => at,
        None => 0,
    }
}

/// Task `j` comes after task `i` in the order of the changes. Tasks that changed
/// at the same time keep their places.
pub open spec fn comes_after(tasks: Seq<TaskView>, j: int, i: int) -> bool {
    changed_at(tasks[j]) > changed_at(tasks[i]) || (changed_at(tasks[j]) == changed_at(tasks[i])
        && j > i)
}

/// Task `i` failed, and so did every task that came after it.
pub open spec fn in_streak(tasks: Seq<TaskView>, i: int) -> bool {
    tasks[i].status == Status::Failed && forall|j: int|
        0 <= j < tasks.len() && #[trigger] comes_after(tasks, j, i) ==> tasks[j].status
            == Status::Failed
}

/// How many of the first `n` tasks belong to the trailing run of failures.
pub open spec fn streak_among(tasks: Seq<TaskView>, n: nat) -> nat
    decreases n,
{
    if n == 0 {
        0
    } else {
        streak_among(tasks, (n - 1) as nat) + (if in_streak(tasks, n - 1) {
            1nat
        } else {
            0nat
        })
    }
}

/// The length of the trailing run of failures, in the order of the changes.
pub open spec fn failure_streak(tasks: Seq<TaskView>) -> nat {
    streak_among(tasks, tasks.len())
}

fn at_of(run: &RunState, i: usize) -> (r: i64)
    requires
        i < run.tasks@.len(),
    ensures
        r == changed_at(run@.tasks[i as int]),
{
    assert(run@.tasks[i as int] == run.tasks@[i as int]@);
    match run.tasks[i].updated_at {
        Some(at) => at,
        None => 0,
    }
}

fn ends_in_failure(run: &RunState, i: usize) -> (r: bool)
    requires
        i < run.tasks@.len(),
    ensures
        r == in_streak(run@.tasks, i as int),
{
    assert(run@.tasks[i as int] == run.tasks@[i as int]@);
    if run.tasks[i].status != Status::Failed {
        return false;
    }
    let mine = at_of(run, i);
    let mut j: usize = 0;
    while j < run.tasks.len()
        invariant
            i < run.tasks@.len(),
            j <= run.tasks@.len(),
            mine == changed_at(run@.tasks[i as int]),
            forall|k: int|
                0 <= k < j && #[trigger] comes_after(run@.tasks, k, i as int)
                    ==> run@.tasks[k].status == Status::Failed,
        decreases run.tasks@.len() - j,
    {
        assert(run@.tasks[j as int] == run.tasks@[j as int]@);
        let theirs = at_of(run, j);
        if theirs > mine || (theirs == mine && j > i) {
            assert(comes_after(run@.tasks, j as int, i as int));
            if run.tasks[j].status != Status::Failed {
                return false;
            }
        }
        j += 1;
    }
    true
}

/// The length of the trailing run of failures, as far as a `u32` counts.
pub fn trailing_failure_streak(run: &RunState) -> (r: u32)
    ensures
        r == (if failure_streak(run@.tasks) > u32::MAX {
            u32::MAX as int
        } else {
            failure_streak(run@.tasks) as int
        }),
{
    let mut streak: u32 = 0;
    let mut i: usize = 0;
    while i < run.tasks.len()
        invariant
            i <= run.tasks@.len(),
            streak == (if streak_among(run@.tasks, i as nat) > u32::MAX {
                u32::MAX as int
            } else {
                streak_among(run@.tasks, i as nat) as int
            }),
        decreases run.tasks@.len() - i,
    {
        if ends_in_failure(run, i) {
            streak = streak.saturating_add(1);
        }
        i += 1;
    }
    streak
}

/// `at` is the latest change of any task.
pub open spec fn is_latest(tasks: Seq<TaskView>, at: i64) -> bool {
    (exists|i: int| 0 <= i < tasks.len() && #[trigger] tasks[i].updated_at == Some(at))
        && forall|i: int|
        0 <= i < tasks.len() && (#[trigger] tasks[i]).updated_at is Some
            ==> tasks[i].updated_at->0 <= at
}

/// No task says when it changed.
pub open spec fn undated(tasks: Seq<TaskView>) -> bool {
    forall|i: int| 0 <= i < tasks.len() ==> (#[trigger] tasks[i]).updated_at is None
}

/// When a run last made progress, where any task says so.
pub fn max_updated_at(run: &RunState) -> (r: Option<i64>)
    ensures
        match r {
            Some(at) => is_latest(run@.tasks, at),
            None => undated(run@.tasks),
        },
{
    let mut r: Option<i64> = None;
    let mut i: usize = 0;
    while i < run.tasks.len()
        invariant
            i <= run.tasks@.len(),
            match r {
                Some(at) => (exists|k: int|
                    0 <= k < i && #[trigger] run@.tasks[k].updated_at == Some(at)) && forall|k: int|
                    0 <= k < i && (#[trigger] run@.tasks[k]).updated_at is Some
                        ==> run@.tasks[k].updated_at->0 <= at,
                None => forall|k: int|
                    0 <= k < i ==> (#[trigger] run@.tasks[k]).updated_at is None,
            },
        decreases run.tasks@.len() - i,
    {
        assert(run@.tasks[i as int] == run.tasks@[i as int]@);
        match run.tasks[i].updated_at {
            Some(at) => {
                let newer = match r {
                    Some(held) => at > held,
                    None => true,
                };
                if newer {
                    r = Some(at);
                }
            },
            None => {},
        }
        i += 1;
    }
    r
}

/// The latest change is so near that an `i64` holds the time since.
pub open spec fn measurable(tasks: Seq<TaskView>, now: i64) -> bool {
    forall|at: i64| #[trigger] is_latest(tasks, at) ==> now - at <= i64::MAX
}

/// How long a run has been idle, or why that cannot be measured. A change in the
/// future counts as one of now.
pub fn gather_idle_secs(run: Option<&RunState>, now: i64) -> (r: Determination<i64>)
    requires
        run matches Some(rs) ==> measurable(rs@.tasks, now),
    ensures
        match run {
            None => r is Undetermined && r->Undetermined_0@
                == "run state could not be loaded — time since last progress is unmeasurable"@,
            Some(rs) => {
                &&& undated(rs@.tasks) ==> r is Undetermined && r->Undetermined_0@
                    == "no task carries an updated_at — time since last progress is unmeasurable"@
                &&& forall|at: i64| #[trigger]
                    is_latest(rs@.tasks, at) ==> r is Known && r->Known_0 == (if now > at {
                        now - at
                    } else {
                        0
                    })
                &&& r is Known ==> exists|at: i64| is_latest(rs@.tasks, at)
            },
        },
{
    match run {
        None => Determination::undetermined(
            "run state could not be loaded — time since last progress is unmeasurable",
        ),
        Some(rs) => match max_updated_at(rs) {
            Some(at) => Determination::Known(
                if now > at {
                    now - at
                } else {
                    0
                },
            ),
            None => Determination::undetermined(
                "no task carries an updated_at — time since last progress is unmeasurable",
            ),
        },
    }
}

// ---- the check -----------------------------------------------------------

/// The word for a verdict.
pub open spec fn word_of(v: CircuitVerdict) -> Seq<char> {
    match v {
        CircuitVerdict::Continue => "continue"@,
        CircuitVerdict::Trip(_) => "trip"@,
    }
}

/// The slug of the reason of a verdict, where it trips.
pub open spec fn reason_of(v: CircuitVerdict) -> Option<Seq<char>> {
    match v {
        CircuitVerdict::Continue => None,
        CircuitVerdict::Trip(r) => Some(slug_of(r)),
    }
}

/// The word and the reason, the same in the report and in the journal.
fn verdict_fields(verdict: &CircuitVerdict) -> (r: (&'static str, Option<String>))
    ensures
        r.0@ == word_of(*verdict),
        text::opt(r.1) == reason_of(*verdict),
{
    match verdict {
        CircuitVerdict::Continue => ("continue", None),
        CircuitVerdict::Trip(r) => ("trip", Some(owned(r.as_str()))),
    }
}

/// What a check reports: the verdict and every signal. An idleness that was not
/// measured is absent, never zero.
#[derive(Debug)]
pub struct CircuitReport {
    pub verdict: &'static str,
    pub reason: Option<String>,
    pub streak: u32,
    pub streak_cap: u32,
    pub budget_over_cap: bool,
    pub idle_secs: Option<i64>,
    pub idle_unknown_reason: Option<String>,
    pub idle_ttl_secs: i64,
}

/// `r` reports this verdict and these signals.
pub open spec fn reported(
    verdict: CircuitVerdict,
    streak: u32,
    streak_cap: u32,
    budget_over_cap: bool,
    idle: Determination<i64>,
    idle_ttl_secs: i64,
    r: CircuitReport,
) -> bool {
    &&& r.verdict@ == word_of(verdict)
    &&& text::opt(r.reason) == reason_of(verdict)
    &&& r.streak == streak
    &&& r.streak_cap == streak_cap
    &&& r.budget_over_cap == budget_over_cap
    &&& r.idle_ttl_secs == idle_ttl_secs
    &&& match idle {
        Determination::Known(secs) => r.idle_secs == Some(secs) && r.idle_unknown_reason is None,
        Determination::Undetermined(why) => r.idle_secs is None && text::opt(
            r.idle_unknown_reason,
        ) == Some(why@),
    }
}

/// The report of a check.
pub fn circuit_report(
    verdict: &CircuitVerdict,
    streak: u32,
    streak_cap: u32,
    budget_over_cap: bool,
    idle: &Determination<i64>,
    idle_ttl_secs: i64,
) -> (r: CircuitReport)
    ensures
        reported(*verdict, streak, streak_cap, budget_over_cap, *idle, idle_ttl_secs, r),
{
    let (word, reason) = verdict_fields(verdict);
    let (idle_secs, idle_unknown_reason) = match idle {
        Determination::Known(secs) => (Some(*secs), None),
        Determination::Undetermined(why) => (None, Some(why.clone())),
    };
    CircuitReport {
        verdict: word,
        reason,
        streak,
        streak_cap,
        budget_over_cap,
        idle_secs,
        idle_unknown_reason,
        idle_ttl_secs,
    }
}

/// What a check of a run comes to.
#[derive(Debug)]
pub struct CircuitCheck {
    pub verdict: CircuitVerdict,
    pub report: CircuitReport,
    pub record: CircuitRecord,
    /// 0 to go on, 1 where the breaker tripped.
    pub exit_code: i32,
}

/// Checks a run: gathers its signals, decides, and says what to print, what to
/// journal and how to exit. `run` is absent where it could not be loaded, which
/// counts as no failures and as an idleness that cannot be measured. The
/// journal holds a zero for an idleness that was not measured, under the reason
/// that says so.
pub fn run_circuit_check(
    run: Option<&RunState>,
    streak_cap: u32,
    idle_ttl_secs: i64,
    budget_over_cap: bool,
    now: i64,
) -> (r: CircuitCheck)
    requires
        run matches Some(rs) ==> measurable(rs@.tasks, now),
    ensures
        exists|streak: u32, idle: Determination<i64>|
            {
                &&& #[trigger] gathers(run, now, streak, idle)
                &&& r.verdict == breaks(streak, streak_cap, budget_over_cap, idle, idle_ttl_secs)
                &&& reported(
                    r.verdict,
                    streak,
                    streak_cap,
                    budget_over_cap,
                    idle,
                    idle_ttl_secs,
                    r.report,
                )
                &&& r.record.verdict@ == word_of(r.verdict)
                &&& text::opt(r.record.reason) == reason_of(r.verdict)
                &&& r.record.streak == streak
                &&& r.record.streak_cap == streak_cap
                &&& r.record.budget_over_cap == budget_over_cap
                &&& r.record.idle_secs == (match idle {
                    Determination::Known(secs) => secs,
                    Determination::Undetermined(_) => 0,
                })
                &&& r.record.idle_ttl_secs == idle_ttl_secs
                &&& r.record.recorded_at == now
                &&& r.exit_code == (if r.verdict == CircuitVerdict::Continue {
                    0i32
                } else {
                    1i32
                })
            },
{
    let streak = match run {
        Some(rs) => trailing_failure_streak(rs),
        None => 0,
    };
    let idle = gather_idle_secs(run, now);
    assert(gathers(run, now, streak, idle));
    let verdict = decide(streak, streak_cap, budget_over_cap, &idle, idle_ttl_secs);
    let report = circuit_report(
        &verdict,
        streak,
        streak_cap,
        budget_over_cap,
        &idle,
        idle_ttl_secs,
    );
    let (word, reason) = verdict_fields(&verdict);
    let journaled: i64 = match &idle {
        Determination::Known(secs) => *secs,
        Determination::Undetermined(_) => 0,
    };
    let record = CircuitRecord {
        verdict: owned(word),
        reason,
        streak,
        streak_cap,
        budget_over_cap,
        idle_secs: journaled,
        idle_ttl_secs,
        recorded_at: now,
    };
    let exit_code: i32 = match verdict {
        CircuitVerdict::Continue => 0,
        CircuitVerdict::Trip(_) => 1,
    };
    CircuitCheck { verdict, report, record, exit_code }
}

/// `streak` and `idle` are the signals of a run.
pub open spec fn gathers(
    run: Option<&RunState>,
    now: i64,
    streak: u32,
    idle: Determination<i64>,
) -> bool {
    match run {
        None => streak == 0 && idle is Undetermined && idle->Undetermined_0@
            == "run state could not be loaded — time since last progress is unmeasurable"@,
        Some(rs) => {
            let tasks = rs@.tasks;
            &&& streak == (if failure_streak(tasks) > u32::MAX {
                u32::MAX as int
            } else {
                failure_streak(tasks) as int
            })
            &&& undated(tasks) ==> idle is Undetermined && idle->Undetermined_0@
                == "no task carries an updated_at — time since last progress is unmeasurable"@
            &&& forall|at: i64| #[trigger]
                is_latest(tasks, at) ==> idle is Known && idle->Known_0 == (if now > at {
                    now - at
                } else {
                    0
                })
            &&& idle is Known ==> exists|at: i64| is_latest(tasks, at)
        },
    }
}

// ---- laws ----------------------------------------------------------------

/// While the idle axis is on, an idleness that could not be measured never lets
/// the loop go on.
pub proof fn unmeasured_idleness_never_continues(
    streak: u32,
    streak_cap: u32,
    budget_over_cap: bool,
    idle: Determination<i64>,
    idle_ttl_secs: i64,
)
    requires
        idle is Undetermined,
        idle_ttl_secs > 0,
    ensures
        breaks(streak, streak_cap, budget_over_cap, idle, idle_ttl_secs)
            != CircuitVerdict::Continue,
{
}

/// The breaker goes on exactly where no axis that is on stands in the way.
pub proof fn continuing_takes_every_axis(
    streak: u32,
    streak_cap: u32,
    budget_over_cap: bool,
    idle: Determination<i64>,
    idle_ttl_secs: i64,
)
    ensures
        breaks(streak, streak_cap, budget_over_cap, idle, idle_ttl_secs)
            == CircuitVerdict::Continue <==> !budget_over_cap && (streak_cap == 0 || streak
            < streak_cap) && (idle_ttl_secs <= 0 || (idle is Known && idle->Known_0
            < idle_ttl_secs)),
{
}

/// The trailing run of failures is no longer than the list of tasks, and is
/// empty where no task failed.
pub proof fn streak_is_bounded(tasks: Seq<TaskView>, n: nat)
    requires
        n <= tasks.len(),
    ensures
        streak_among(tasks, n) <= n,
        (forall|i: int| 0 <= i < tasks.len() ==> (#[trigger] tasks[i]).status != Status::Failed)
            ==> streak_among(tasks, n) == 0,
    decreases n,
{
    if n > 0 {
        streak_is_bounded(tasks, (n - 1) as nat);
    }
}

/// How many tasks stand in the trailing run of failures, as a set.
proof fn lemma_streak_is_counted(tasks: Seq<TaskView>, n: nat)
    ensures
        Set::new(|i: int| 0 <= i < n && in_streak(tasks, i)).finite(),
        Set::new(|i: int| 0 <= i < n && in_streak(tasks, i)).len() == streak_among(tasks, n),
    decreases n,
{
    let here = Set::new(|i: int| 0 <= i < n && in_streak(tasks, i));
    if n == 0 {
        assert(here =~= Set::<int>::empty());
    } else {
        let before = Set::new(|i: int| 0 <= i < n - 1 && in_streak(tasks, i));
        lemma_streak_is_counted(tasks, (n - 1) as nat);
        assert(before =~= Set::new(|i: int| 0 <= i < ((n - 1) as nat) && in_streak(tasks, i)));
        if in_streak(tasks, n - 1) {
            assert(here =~= before.insert(n - 1));
        } else {
            assert(here =~= before);
        }
    }
}

/// Put the tasks in the order of their changes, an undated one as if it were
/// changed at zero, and those of one time in the order in which they are listed.
/// The trailing run of failures is then the longest end of that order in which
/// every task failed: all of it failed, and the task right before it did not.
pub proof fn the_streak_is_the_longest_failed_end(tasks: Seq<TaskView>, order: Seq<int>)
    requires
        order.len() == tasks.len(),
        order.no_duplicates(),
        forall|p: int| 0 <= p < order.len() ==> 0 <= #[trigger] order[p] < tasks.len(),
        forall|i: int| 0 <= i < tasks.len() ==> #[trigger] order.contains(i),
        forall|p: int, q: int|
            0 <= p < q < order.len() ==> {
                let early = tasks[#[trigger] order[p]].updated_at;
                let late = tasks[#[trigger] order[q]].updated_at;
                let from: i64 = if early is Some {
                    early->0
                } else {
                    0
                };
                let to: i64 = if late is Some {
                    late->0
                } else {
                    0
                };
                from < to || (from == to && order[p] < order[q])
            },
    ensures
        failure_streak(tasks) <= tasks.len(),
        forall|p: int|
            tasks.len() - failure_streak(tasks) <= p < tasks.len() ==> tasks[#[trigger] order[p]].status
                == Status::Failed,
        failure_streak(tasks) < tasks.len() ==> tasks[order[tasks.len() - failure_streak(tasks)
            - 1]].status != Status::Failed,
{
    let n = tasks.len();
    let s = first_of_end(tasks, order, n as int);
    lemma_first_of_end(tasks, order, n as int);
    assert forall|p: int| 0 <= p < n implies (in_streak(tasks, #[trigger] order[p]) <==> s <= p) by {
        if s <= p {
            assert forall|j: int|
                0 <= j < tasks.len() && #[trigger] comes_after(tasks, j, order[p]) implies tasks[j].status
                == Status::Failed by {
                assert(order.contains(j));
                let q = choose|q: int| 0 <= q < order.len() && order[q] == j;
                assert(order[q] == j);
                if q < p {
                    assert(!comes_after(tasks, order[q], order[p]));
                }
            }
        } else {
            assert(tasks[order[s - 1]].status != Status::Failed);
            if s - 1 > p {
                assert(comes_after(tasks, order[s - 1], order[p]));
            }
        }
    }
    let counted = Set::new(|i: int| 0 <= i < n && in_streak(tasks, i));
    lemma_streak_is_counted(tasks, n);
    let end = order.skip(s);
    assert(end.no_duplicates());
    assert(end.to_set() =~= counted) by {
        assert forall|i: int| end.to_set().contains(i) <==> counted.contains(i) by {
            if counted.contains(i) {
                assert(order.contains(i));
                let q = choose|q: int| 0 <= q < order.len() && order[q] == i;
                assert(order[q] == i);
                assert(end[q - s] == i);
            }
            if end.contains(i) {
                let q = choose|q: int| 0 <= q < end.len() && end[q] == i;
                assert(order[q + s] == i);
            }
        }
    }
    end.unique_seq_to_set();
}

/// Where the end of failures begins among the first `n` places of an order.
spec fn first_of_end(tasks: Seq<TaskView>, order: Seq<int>, n: int) -> int
    decreases n,
{
    if n <= 0 {
        0
    } else if tasks[order[n - 1]].status == Status::Failed {
        first_of_end(tasks, order, n - 1)
    } else {
        n
    }
}

proof fn lemma_first_of_end(tasks: Seq<TaskView>, order: Seq<int>, n: int)
    requires
        0 <= n <= order.len(),
    ensures
        0 <= first_of_end(tasks, order, n) <= n,
        forall|p: int|
            first_of_end(tasks, order, n) <= p < n ==> tasks[#[trigger] order[p]].status
                == Status::Failed,
        first_of_end(tasks, order, n) > 0 ==> tasks[order[first_of_end(tasks, order, n) - 1]].status
            != Status::Failed,
    decreases n,
{
    if n > 0 {
        lemma_first_of_end(tasks, order, n - 1);
    }
}

/// Where the task that changed last has any status but failed, nothing trails,
/// however many failed before it.
pub proof fn a_task_that_did_not_fail_ends_the_streak(tasks: Seq<TaskView>, last: int)
    requires
        0 <= last < tasks.len(),
        tasks[last].status != Status::Failed,
        forall|i: int|
            0 <= i < tasks.len() && i != last ==> {
                let early = (#[trigger] tasks[i]).updated_at;
                let late = tasks[last].updated_at;
                let from: i64 = if early is Some {
                    early->0
                } else {
                    0
                };
                let to: i64 = if late is Some {
                    late->0
                } else {
                    0
                };
                from < to || (from == to && i < last)
            },
    ensures
        failure_streak(tasks) == 0,
{
    lemma_streak_is_counted(tasks, tasks.len());
    let counted = Set::new(|i: int| 0 <= i < tasks.len() && in_streak(tasks, i));
    assert forall|i: int| !counted.contains(i) by {
        if 0 <= i < tasks.len() && in_streak(tasks, i) {
            let _ = tasks[i];
            assert(i == last || comes_after(tasks, last, i));
        }
    }
    assert(counted =~= Set::<int>::empty());
}

/// Where every task failed, all of them trail.
pub proof fn failures_alone_are_all_counted(tasks: Seq<TaskView>)
    requires
        forall|i: int| 0 <= i < tasks.len() ==> (#[trigger] tasks[i]).status == Status::Failed,
    ensures
        failure_streak(tasks) == tasks.len(),
{
    lemma_all_failed(tasks, tasks.len());
}

proof fn lemma_all_failed(tasks: Seq<TaskView>, n: nat)
    requires
        n <= tasks.len(),
        forall|i: int| 0 <= i < tasks.len() ==> (#[trigger] tasks[i]).status == Status::Failed,
    ensures
        streak_among(tasks, n) == n,
    decreases n,
{
    if n > 0 {
        lemma_all_failed(tasks, (n - 1) as nat);
    }
}

/// Each axis is tripped for its own reason, the first that stands in the way in
/// this order: the budget, the failures, then the time since the last change.
pub proof fn the_first_axis_names_the_reason(
    streak: u32,
    streak_cap: u32,
    budget_over_cap: bool,
    idle: Determination<i64>,
    idle_ttl_secs: i64,
)
    ensures
        ({
            let verdict = breaks(streak, streak_cap, budget_over_cap, idle, idle_ttl_secs);
            let failing = streak_cap != 0 && streak >= streak_cap;
            let watched = !budget_over_cap && !failing && idle_ttl_secs > 0;
            &&& budget_over_cap <==> verdict == CircuitVerdict::Trip(CircuitReason::BudgetOverCap)
            &&& !budget_over_cap && failing <==> verdict == CircuitVerdict::Trip(
                CircuitReason::FailureStreak,
            )
            &&& watched && idle is Known && idle->Known_0 >= idle_ttl_secs <==> verdict
                == CircuitVerdict::Trip(CircuitReason::Stall)
            &&& watched && idle is Undetermined <==> verdict == CircuitVerdict::Trip(
                CircuitReason::IdleUnmeasured,
            )
        }),
{
}

/// One more failure, a spent budget or a longer pause never turn a trip into
/// going on.
pub proof fn a_worse_run_is_never_let_on(
    streak: u32,
    worse_streak: u32,
    streak_cap: u32,
    budget_over_cap: bool,
    secs: i64,
    worse_secs: i64,
    idle_ttl_secs: i64,
)
    requires
        streak <= worse_streak,
        secs <= worse_secs,
        breaks(
            streak,
            streak_cap,
            budget_over_cap,
            Determination::Known(secs),
            idle_ttl_secs,
        ) != CircuitVerdict::Continue,
    ensures
        breaks(
            worse_streak,
            streak_cap,
            budget_over_cap,
            Determination::Known(worse_secs),
            idle_ttl_secs,
        ) != CircuitVerdict::Continue,
        breaks(streak, streak_cap, true, Determination::Known(secs), idle_ttl_secs)
            != CircuitVerdict::Continue,
{
}

/// The latest change is one that a task carries, and no task changed later; so
/// there is one at most, and there is none exactly where no task is dated.
pub proof fn the_latest_change_is_the_last(tasks: Seq<TaskView>, at: i64)
    ensures
        is_latest(tasks, at) ==> exists|i: int|
            0 <= i < tasks.len() && (#[trigger] tasks[i]).updated_at == Some(at),
        is_latest(tasks, at) ==> forall|i: int|
            0 <= i < tasks.len() && (#[trigger] tasks[i]).updated_at is Some
                ==> tasks[i].updated_at->0 <= at,
        is_latest(tasks, at) ==> !undated(tasks),
        undated(tasks) <==> forall|i: int|
            0 <= i < tasks.len() ==> (#[trigger] tasks[i]).updated_at == None::<i64>,
{
}

/// What is gathered off a run that was read: where a task carries a time, the
/// pause is known, is never negative, and is no longer than the time since any
/// dated change; where none does, it is left open.
pub proof fn the_pause_runs_from_the_last_change(
    rs: &RunState,
    now: i64,
    streak: u32,
    idle: Determination<i64>,
    i: int,
)
    requires
        gathers(Some(rs), now, streak, idle),
        0 <= i < rs@.tasks.len(),
        rs@.tasks[i].updated_at is Some,
        rs@.tasks[i].updated_at->0 <= now,
    ensures
        idle is Known,
        0 <= idle->Known_0 <= now - rs@.tasks[i].updated_at->0,
{
    let tasks = rs@.tasks;
    lemma_some_latest(tasks, tasks.len() as int, i);
    let at = choose|at: i64| is_latest(tasks, at);
    assert(is_latest(tasks, at));
    let _ = tasks[i];
}

proof fn lemma_some_latest(tasks: Seq<TaskView>, n: int, i: int)
    requires
        0 <= i < n <= tasks.len(),
        tasks[i].updated_at is Some,
    ensures
        exists|at: i64| is_latest(tasks.take(n), at),
        n == tasks.len() ==> exists|at: i64| is_latest(tasks, at),
    decreases n,
{
    let here = tasks.take(n);
    let before = tasks.take(n - 1);
    let last = tasks[n - 1].updated_at;
    assert(here[n - 1] == tasks[n - 1]);
    assert(forall|k: int| 0 <= k < n - 1 ==> here[k] == before[k]);
    if exists|k: int| 0 <= k < n - 1 && (#[trigger] tasks[k]).updated_at is Some {
        let k = choose|k: int| 0 <= k < n - 1 && (#[trigger] tasks[k]).updated_at is Some;
        lemma_some_latest(tasks, n - 1, k);
        let at = choose|at: i64| is_latest(before, at);
        let w = choose|w: int| 0 <= w < before.len() && #[trigger] before[w].updated_at == Some(at);
        assert(here[w].updated_at == Some(at));
        if last is Some && last->0 > at {
            assert(is_latest(here, last->0));
        } else {
            assert(is_latest(here, at));
        }
    } else {
        assert(i == n - 1);
        assert forall|k: int| 0 <= k < n - 1 implies (#[trigger] here[k]).updated_at is None by {
            assert(tasks[k].updated_at is None);
        }
        assert(here[n - 1].updated_at == Some(last->0));
        assert(is_latest(here, last->0));
    }
    if n == tasks.len() {
        assert(here =~= tasks);
    }
}

/// Each verdict is worded apart, and a trip says why.
pub proof fn each_verdict_has_its_word(v: CircuitVerdict, r: CircuitReason)
    ensures
        word_of(v) == "continue"@ <==> v == CircuitVerdict::Continue,
        word_of(v) == "trip"@ <==> v is Trip,
        reason_of(v) is None <==> v == CircuitVerdict::Continue,
        reason_of(CircuitVerdict::Trip(r)) == Some(slug_of(r)),
        slug_of(r) == "failure_streak"@ <==> r == CircuitReason::FailureStreak,
        slug_of(r) == "budget_over_cap"@ <==> r == CircuitReason::BudgetOverCap,
        slug_of(r) == "stall"@ <==> r == CircuitReason::Stall,
        slug_of(r) == "idle_unmeasured"@ <==> r == CircuitReason::IdleUnmeasured,
{
    reveal_strlit("continue");
    reveal_strlit("trip");
    reveal_strlit("failure_streak");
    reveal_strlit("budget_over_cap");
    reveal_strlit("stall");
    reveal_strlit("idle_unmeasured");
    assert("continue"@.len() == 8 && "trip"@.len() == 4);
    assert("failure_streak"@.len() == 14 && "stall"@.len() == 5);
    assert("budget_over_cap"@[0] == 'b' && "idle_unmeasured"@[0] == 'i');
    assert("budget_over_cap"@.len() == 15 && "idle_unmeasured"@.len() == 15);
}

/// A report says what was measured and decided, each as it is.
pub proof fn a_report_says_what_was_measured(
    verdict: CircuitVerdict,
    streak: u32,
    streak_cap: u32,
    budget_over_cap: bool,
    idle: Determination<i64>,
    idle_ttl_secs: i64,
    r: CircuitReport,
)
    requires
        reported(verdict, streak, streak_cap, budget_over_cap, idle, idle_ttl_secs, r),
    ensures
        r.streak == streak,
        r.streak_cap == streak_cap,
        r.budget_over_cap == budget_over_cap,
        r.idle_ttl_secs == idle_ttl_secs,
        r.verdict@ == "continue"@ <==> verdict == CircuitVerdict::Continue,
        r.verdict@ == "trip"@ <==> verdict is Trip,
        r.reason is Some <==> verdict is Trip,
        idle is Known ==> r.idle_secs == Some(idle->Known_0) && r.idle_unknown_reason is None,
        idle is Undetermined ==> r.idle_secs is None && r.idle_unknown_reason is Some
            && r.idle_unknown_reason->0@ == idle->Undetermined_0@,
{
    each_verdict_has_its_word(verdict, CircuitReason::Stall);
}

/// Nothing is gathered off a run that could not be read: no failures, and a pause
/// that is left open.
pub proof fn an_unread_run_is_left_open(now: i64, streak: u32, idle: Determination<i64>)
    requires
        gathers(None, now, streak, idle),
    ensures
        streak == 0,
        idle is Undetermined,
{
}

/// What is gathered of the failures is the length of the trailing run of them.
pub proof fn the_streak_is_gathered(
    rs: &RunState,
    now: i64,
    streak: u32,
    idle: Determination<i64>,
)
    requires
        gathers(Some(rs), now, streak, idle),
    ensures
        failure_streak(rs@.tasks) <= u32::MAX ==> streak == failure_streak(rs@.tasks),
        (forall|i: int| 0 <= i < rs@.tasks.len() ==> (#[trigger] rs@.tasks[i]).updated_at is None)
            ==> idle is Undetermined,
{
    if forall|i: int| 0 <= i < rs@.tasks.len() ==> (#[trigger] rs@.tasks[i]).updated_at is None {
        assert(undated(rs@.tasks));
    }
}

/// A pause can be measured wherever no change lies before the start of the count
/// of seconds, whatever the time is now.
pub proof fn a_run_with_ordinary_times_is_measurable(tasks: Seq<TaskView>, now: i64)
    requires
        forall|i: int|
            0 <= i < tasks.len() && (#[trigger] tasks[i]).updated_at is Some
                ==> tasks[i].updated_at->0 >= 0,
    ensures
        measurable(tasks, now),
{
    assert forall|at: i64| #[trigger] is_latest(tasks, at) implies now - at <= i64::MAX by {
        let i = choose|i: int| 0 <= i < tasks.len() && #[trigger] tasks[i].updated_at == Some(at);
        assert(tasks[i].updated_at->0 >= 0);
    }
}

} // verus!
