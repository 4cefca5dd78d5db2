//! What the commands on the state of a run do: seed it, move its tasks on, free
//! or cancel them, and tell where it stands.

use vstd::prelude::*;

use crate::claim::{ClaimOutcome, Registry};
use crate::model;
use crate::model::{task_files, Decomposition};
use crate::oracle;
use crate::oracle::{enforce_fp_gate, FpGateDecision, OracleVerdict, OracleView};
use crate::state;
use crate::state::{find_task, status_word, RunState, RunView, Status, TaskState, TaskView};
use crate::text;
use crate::text::{copy_opt, dec_usize, join, owned, put_around, same, same_str, trimmed};

verus! {

/// That a run has no such task.
pub open spec fn no_task_text(task: Seq<char>, run: Seq<char>) -> Seq<char> {
    text::around("no task '"@, task, "' in run '"@) + run + "'"@
}

fn no_task(task: &str, run: &str) -> (r: String)
    ensures
        r@ == no_task_text(task@, run@),
{
    let mut r = put_around("no task '", task, "' in run '");
    r.push_str(run);
    r.push_str("'");
    r
}

/// The name of a status.
pub open spec fn status_name(s: Status) -> Seq<char> {
    match s {
        Status::Pending => "Pending"@,
        Status::Running => "Running"@,
        Status::Done => "Done"@,
        Status::Verified => "Verified"@,
        Status::Failed => "Failed"@,
        Status::Cancelled => "Cancelled"@,
    }
}

fn name_of(s: Status) -> (r: &'static str)
    ensures
        r@ == status_name(s),
{
    match s {
        Status::Pending => "Pending",
        Status::Running => "Running",
        Status::Done => "Done",
        Status::Verified => "Verified",
        Status::Failed => "Failed",
        Status::Cancelled => "Cancelled",
    }
}

// ---- seeding a run -------------------------------------------------------

/// That a plan is not valid, and what is wrong with it.
pub open spec fn invalid_text(errors: Seq<Seq<char>>) -> Seq<char> {
    "invalid decomposition:\n  - "@ + text::joined(errors, "\n  - "@)
}

/// The text that refuses a plan, where anything is wrong with it.
pub fn invalid_plan(errors: &Vec<String>) -> (r: Option<String>)
    ensures
        text::opt(r) == (if errors@.len() == 0 {
            None
        } else {
            Some(invalid_text(text::texts(errors@)))
        }),
{
    if errors.len() == 0 {
        return None;
    }
    let mut r = owned("invalid decomposition:\n  - ");
    let list = join(errors, "\n  - ");
    r.push_str(list.as_str());
    Some(r)
}

/// A run in which nothing has happened yet.
pub open spec fn fresh_run(
    plan: Decomposition,
    run_id: Seq<char>,
    label: Option<Seq<char>>,
) -> RunView {
    RunView {
        run_id,
        goal: plan.goal@,
        tasks: plan.tasks@.map_values(|t: model::Task| state::fresh_task(t.id@)),
        paused: false,
        terminal_label: label,
        recorded_at: None,
    }
}

/// Seeds a run from a plan: every task is pending. A plan with errors seeds
/// nothing.
pub fn init_run(
    plan: &Decomposition,
    errors: &Vec<String>,
    run_id: &str,
    label: Option<&str>,
) -> (r: Result<RunState, String>)
    ensures
        match r {
            Ok(rs) => errors@.len() == 0 && rs@ == fresh_run(*plan, run_id@, text::opt_str(label)),
            Err(why) => errors@.len() > 0 && why@ == invalid_text(text::texts(errors@)),
        },
{
    match invalid_plan(errors) {
        Some(why) => return Err(why),
        None => {},
    }
    let mut tasks: Vec<TaskState> = Vec::new();
    let mut i: usize = 0;
    while i < plan.tasks.len()
        invariant
            i <= plan.tasks@.len(),
            tasks@.len() == i,
            forall|k: int|
                0 <= k < i ==> (#[trigger] tasks@[k])@ == state::fresh_task(plan.tasks@[k].id@),
        decreases plan.tasks@.len() - i,
    {
        let mut t = TaskState::default();
        t.id = plan.tasks[i].id.clone();
        tasks.push(t);
        i += 1;
    }
    assert(state::task_views(tasks@) =~= fresh_run(
        *plan,
        run_id@,
        text::opt_str(label),
    ).tasks);
    Ok(
        RunState {
            run_id: owned(run_id),
            goal: plan.goal.clone(),
            tasks,
            paused: false,
            terminal_label: text::owned_opt(label),
            recorded_at: None,
        },
    )
}

/// The label of the terminal: what `tty` printed, where it could be run, ended
/// well and named a terminal, and the process otherwise.
pub open spec fn label_from(tty: Option<(bool, Seq<char>)>, pid: u32) -> Seq<char> {
    match tty {
        Some((ok, printed)) => if ok && text::trim(printed).len() > 0 && text::trim(printed)
            != "not a tty"@ {
            text::trim(printed)
        } else {
            "pid-"@ + text::dec(pid as nat)
        },
        None => "pid-"@ + text::dec(pid as nat),
    }
}

/// The label of the terminal. `tty` is whether the command of that name exited
/// with 0, and what it printed, where it could be run.
pub fn resolve_label(tty: Option<(bool, &str)>, pid: u32) -> (r: Option<String>)
    ensures
        r is Some,
        r->0@ == label_from(
            match tty {
                Some((ok, printed)) => Some((ok, printed@)),
                None => None,
            },
            pid,
        ),
{
    match tty {
        Some((ok, printed)) => {
            if ok {
                let name = trimmed(printed);
                if !name.as_str().is_empty() && !same_str(name.as_str(), "not a tty") {
                    return Some(name);
                }
            }
        },
        None => {},
    }
    let mut r = owned("pid-");
    let number = text::dec_text(pid as u64);
    r.push_str(number.as_str());
    Some(r)
}

// ---- moving a task on ----------------------------------------------------

/// What a task is to be set to. What is left out stays as it is.
#[derive(Debug)]
pub struct SetRequest {
    pub status: Status,
    pub worktree: Option<String>,
    pub branch: Option<String>,
    pub clear_worktree: bool,
    pub clear_branch: bool,
    pub model: Option<String>,
    pub cost_usd_bits: Option<u64>,
}

pub struct SetView {
    pub status: Status,
    pub worktree: Option<Seq<char>>,
    pub branch: Option<Seq<char>>,
    pub clear_worktree: bool,
    pub clear_branch: bool,
    pub model: Option<Seq<char>>,
    pub cost_usd_bits: Option<u64>,
}

impl View for SetRequest {
    type V = SetView;

    open spec fn view(&self) -> SetView {
        SetView {
            status: self.status,
            worktree: text::opt(self.worktree),
            branch: text::opt(self.branch),
            clear_worktree: self.clear_worktree,
            clear_branch: self.clear_branch,
            model: text::opt(self.model),
            cost_usd_bits: self.cost_usd_bits,
        }
    }
}

/// The new value where one is given, and the old one otherwise.
pub open spec fn or_old<T>(new: Option<T>, old_value: Option<T>) -> Option<T> {
    if new is Some {
        new
    } else {
        old_value
    }
}

/// A task as it is after a request. A worktree or branch that the request leaves
/// out is kept, unless it is to be cleared. The commit of a branch is noted when
/// the first branch is assigned.
pub open spec fn after_set(
    t: TaskView,
    req: SetView,
    fp: Option<bool>,
    tip: Option<Seq<char>>,
    now: i64,
) -> TaskView {
    TaskView {
        id: t.id,
        status: req.status,
        worktree: if req.clear_worktree {
            None
        } else {
            or_old(req.worktree, t.worktree)
        },
        branch: if req.clear_branch {
            None
        } else {
            or_old(req.branch, t.branch)
        },
        branch_sha: if req.clear_branch {
            None
        } else if req.branch is Some && t.branch_sha is None {
            match tip {
                Some(s) => Some(text::trim(s)),
                None => None,
            }
        } else {
            t.branch_sha
        },
        updated_at: Some(now),
        model: or_old(req.model, t.model),
        cost_usd_bits: or_old(req.cost_usd_bits, t.cost_usd_bits),
        fp_oracle_valid: if req.status == Status::Verified {
            fp
        } else {
            t.fp_oracle_valid
        },
        findings: t.findings,
    }
}

/// Why a task was not moved on.
#[derive(Debug, PartialEq, Eq)]
pub enum SetStop {
    /// Another live run works on its files.
    Skipped(String),
    /// It may not be verified.
    Refused(String),
    /// There is no such task.
    NoTask(String),
}

pub enum SetStopView {
    Skipped(Seq<char>),
    Refused(Seq<char>),
    NoTask(Seq<char>),
}

impl View for SetStop {
    type V = SetStopView;

    open spec fn view(&self) -> SetStopView {
        match self {
            SetStop::Skipped(s) => SetStopView::Skipped(s@),
            SetStop::Refused(s) => SetStopView::Refused(s@),
            SetStop::NoTask(s) => SetStopView::NoTask(s@),
        }
    }
}

/// What stands in the way of moving a task on, if anything does: files that
/// another live run holds, for a task that is to run; an oracle that is refused,
/// for a task that is to be verified; and that there is no such task.
pub open spec fn stop_of(
    tasks: Seq<TaskView>,
    run: Seq<char>,
    task: Seq<char>,
    status: Status,
    skipped: nat,
    verdict: Option<OracleView>,
) -> Option<SetStopView> {
    if status == Status::Running && skipped > 0 {
        Some(
            SetStopView::Skipped(
                text::around("condukt: task '"@, task, "' skipped — "@) + text::dec(skipped)
                    + " file(s) already claimed by a live run"@,
            ),
        )
    } else if status == Status::Verified && verdict is Some && oracle::gates(verdict->0)
        == FpGateDecision::Reject {
        Some(
            SetStopView::Refused(
                text::around(
                    "refusing to verify task '"@,
                    task,
                    "': no valid fail-to-pass reproduction oracle ("@,
                ) + verdict->0.reason + ")"@,
            ),
        )
    } else if state::none_called(tasks, task) {
        Some(SetStopView::NoTask(no_task_text(task, run)))
    } else {
        None
    }
}

/// What the oracle had to say of a task that is verified.
pub open spec fn proved_by(verdict: Option<OracleView>) -> Option<bool> {
    match verdict {
        Some(v) => match oracle::gates(v) {
            FpGateDecision::Allow(said) => said,
            FpGateDecision::Reject => None,
        },
        None => None,
    }
}

/// A task that has come to an end.
pub open spec fn is_terminal(s: Status) -> bool {
    s == Status::Verified || s == Status::Failed || s == Status::Cancelled
}

/// What follows from moving a task on.
#[derive(Debug, PartialEq, Eq)]
pub struct SetDone {
    /// Where the task stands in the run.
    pub index: usize,
    /// The run goes back to its last checkpoint: a task failed that had been
    /// verified.
    pub rollback: bool,
    /// The task has come to an end, and its files are released.
    pub release: bool,
}

/// What is known of an oracle, where anything is.
pub open spec fn verdict_view(v: Option<&OracleVerdict>) -> Option<OracleView> {
    match v {
        Some(v) => Some(v@),
        None => None,
    }
}

/// Moves a task on. `skipped` is how many of its files another live run holds,
/// `verdict` what is known of its oracle, and `tip` what git says of the branch
/// that is assigned.
pub fn set_task(
    rs: &mut RunState,
    run: &str,
    task: &str,
    req: &SetRequest,
    skipped: usize,
    verdict: Option<&OracleVerdict>,
    tip: Option<&str>,
    now: i64,
) -> (r: Result<SetDone, SetStop>)
    ensures
        match stop_of(
            old(rs)@.tasks,
            run@,
            task@,
            req.status,
            skipped as nat,
            verdict_view(verdict),
        ) {
            Some(stop) => final(rs)@ == old(rs)@ && (r matches Err(s) && s@ == stop),
            None => {
                &&& r is Ok
                &&& state::first_called(old(rs)@.tasks, task@, r->Ok_0.index as int)
                &&& final(rs)@ == (RunView {
                    tasks: old(rs)@.tasks.update(
                        r->Ok_0.index as int,
                        after_set(
                            old(rs)@.tasks[r->Ok_0.index as int],
                            req@,
                            proved_by(verdict_view(verdict)),
                            text::opt_str(tip),
                            now,
                        ),
                    ),
                    ..old(rs)@
                })
                &&& r->Ok_0.rollback == (req.status == Status::Failed && old(
                    rs,
                )@.tasks[r->Ok_0.index as int].status == Status::Verified)
                &&& r->Ok_0.release == is_terminal(req.status)
            },
        },
        r is Err ==> final(rs)@ == old(rs)@,
        r matches Ok(done) ==> {
            let t = final(rs)@.tasks[done.index as int];
            &&& final(rs)@.tasks.len() == old(rs)@.tasks.len()
            &&& forall|k: int|
                0 <= k < old(rs)@.tasks.len() && k != done.index ==> #[trigger] final(rs)@.tasks[k]
                    == old(rs)@.tasks[k]
            &&& t.id == task@
            &&& t.status == req.status
            &&& t.updated_at == Some(now)
            &&& req.worktree is Some && !req.clear_worktree ==> t.worktree == Some(
                req.worktree->0@,
            )
            &&& req.clear_worktree ==> t.worktree is None
            &&& req.branch is Some && !req.clear_branch ==> t.branch == Some(req.branch->0@)
            &&& req.clear_branch ==> t.branch is None && t.branch_sha is None
            &&& req.model is Some ==> t.model == Some(req.model->0@)
            &&& req.cost_usd_bits is Some ==> t.cost_usd_bits == req.cost_usd_bits
            &&& done.release <==> req.status != Status::Pending && req.status != Status::Running
                && req.status != Status::Done
        },
{
    if req.status == Status::Running && skipped > 0 {
        let mut why = put_around("condukt: task '", task, "' skipped — ");
        let count = dec_usize(skipped);
        why.push_str(count.as_str());
        why.push_str(" file(s) already claimed by a live run");
        return Err(SetStop::Skipped(why));
    }
    let mut fp: Option<bool> = None;
    if req.status == Status::Verified {
        match verdict {
            Some(v) => match enforce_fp_gate(v) {
                FpGateDecision::Reject => {
                    let mut why = put_around(
                        "refusing to verify task '",
                        task,
                        "': no valid fail-to-pass reproduction oracle (",
                    );
                    why.push_str(v.reason.as_str());
                    why.push_str(")");
                    return Err(SetStop::Refused(why));
                },
                FpGateDecision::Allow(said) => {
                    fp = said;
                },
            },
            None => {},
        }
    }
    let i = match find_task(&rs.tasks, task) {
        Some(i) => i,
        None => return Err(SetStop::NoTask(no_task(task, run))),
    };
    proof {
        assert(!state::none_called(rs@.tasks, task@)) by {
            assert(rs@.tasks[i as int].id == task@);
        }
    }
    assert(rs@.tasks[i as int] == rs.tasks@[i as int]@);
    let ghost before = rs@;
    let mut t = rs.tasks[i].clone();
    let prior = t.status;
    t.status = req.status;
    t.updated_at = Some(now);
    if req.status == Status::Verified {
        t.fp_oracle_valid = fp;
    }
    if req.model.is_some() {
        t.model = copy_opt(&req.model);
    }
    if req.cost_usd_bits.is_some() {
        t.cost_usd_bits = req.cost_usd_bits;
    }
    if req.clear_worktree {
        t.worktree = None;
    } else if req.worktree.is_some() {
        t.worktree = copy_opt(&req.worktree);
    }
    if req.clear_branch {
        t.branch = None;
        t.branch_sha = None;
    } else if req.branch.is_some() {
        if t.branch_sha.is_none() {
            t.branch_sha = match tip {
                Some(s) => Some(trimmed(s)),
                None => None,
            };
        }
        t.branch = copy_opt(&req.branch);
    }
    let ghost after = t@;
    rs.tasks.set(i, t);
    assert(rs@.tasks =~= before.tasks.update(i as int, after));
    let release = match req.status {
        Status::Verified | Status::Failed | Status::Cancelled => true,
        _ => false,
    };
    Ok(
        SetDone {
            index: i,
            rollback: req.status == Status::Failed && prior == Status::Verified,
            release,
        },
    )
}

/// The files to claim before a task is moved on: those of the plan, for a task
/// that is to run.
pub fn files_to_claim(status: Status, plan: Option<&Decomposition>, task: &str) -> (r: Vec<String>)
    ensures
        status != Status::Running ==> r@.len() == 0,
        status == Status::Running ==> files_of(plan, task@, text::texts(r@)),
{
    match status {
        Status::Running => task_files(plan, task),
        _ => Vec::new(),
    }
}

/// The files to release once a task has come to an end.
pub fn files_to_release(status: Status, plan: Option<&Decomposition>, task: &str) -> (r: Vec<
    String,
>)
    ensures
        !is_terminal(status) ==> r@.len() == 0,
        is_terminal(status) ==> files_of(plan, task@, text::texts(r@)),
{
    match status {
        Status::Verified | Status::Failed | Status::Cancelled => task_files(plan, task),
        _ => Vec::new(),
    }
}

/// `files` are those that the plan gives the first task called `task`, and none
/// where there is no plan or no such task in it.
pub open spec fn files_of(
    plan: Option<&Decomposition>,
    task: Seq<char>,
    files: Seq<Seq<char>>,
) -> bool {
    match plan {
        Some(p) => {
            &&& forall|i: int| #[trigger]
                model::is_task(p.tasks@, task, i) ==> files == text::texts(
                    p.tasks@[i].touched_files@,
                )
            &&& model::no_task(p.tasks@, task) ==> files.len() == 0
        },
        None => files.len() == 0,
    }
}

/// Where the work on a task is done: in its worktree, or where the command runs.
pub open spec fn dir_of(tasks: Seq<TaskView>, task: Seq<char>, cwd: Seq<char>, dir: Seq<char>) ->
    bool {
    &&& state::none_called(tasks, task) ==> dir == cwd
    &&& forall|i: int| #[trigger]
        state::first_called(tasks, task, i) ==> dir == (match tasks[i].worktree {
            Some(w) => w,
            None => cwd,
        })
}

/// Where the work on a task is done.
pub fn run_dir(rs: &RunState, task: &str, cwd: &str) -> (r: String)
    ensures
        dir_of(rs@.tasks, task@, cwd@, r@),
{
    match find_task(&rs.tasks, task) {
        Some(i) => {
            assert(rs@.tasks[i as int] == rs.tasks@[i as int]@);
            proof {
                assert(!state::none_called(rs@.tasks, task@)) by {
                    assert(rs@.tasks[i as int].id == task@);
                }
                assert forall|k: int| #[trigger]
                    state::first_called(rs@.tasks, task@, k) implies k == i by {
                    state::lemma_first_is_one(rs@.tasks, task@, k, i as int);
                }
            }
            match &rs.tasks[i].worktree {
                Some(w) => w.clone(),
                None => owned(cwd),
            }
        },
        None => {
            proof {
                assert forall|k: int| !#[trigger] state::first_called(rs@.tasks, task@, k) by {
                    if state::first_called(rs@.tasks, task@, k) {
                        assert(rs@.tasks[k].id != task@);
                    }
                }
            }
            owned(cwd)
        },
    }
}

/// What to ask of the oracle.
#[derive(Debug)]
pub struct OracleCall {
    pub requires_oracle: bool,
    pub reproduction_tests: Option<String>,
    pub run_dir: String,
}

/// `call` asks about the task at `i` of the plan.
pub open spec fn asks_about(
    plan: Decomposition,
    i: int,
    tasks: Seq<TaskView>,
    task: Seq<char>,
    cwd: Seq<char>,
    call: OracleCall,
) -> bool {
    &&& call.requires_oracle == model::needs_oracle(text::opt(plan.tasks@[i].kind))
    &&& text::opt(call.reproduction_tests) == text::opt(plan.tasks@[i].reproduction_tests)
    &&& dir_of(tasks, task, cwd, call.run_dir@)
}

/// What to ask of the oracle about a task, or that the plan has no such task.
pub fn oracle_call(
    plan: &Decomposition,
    rs: &RunState,
    run: &str,
    task: &str,
    cwd: &str,
) -> (r: Result<OracleCall, String>)
    ensures
        match r {
            Ok(call) => exists|i: int| #[trigger]
                model::is_task(plan.tasks@, task@, i) && asks_about(
                    *plan,
                    i,
                    rs@.tasks,
                    task@,
                    cwd@,
                    call,
                ),
            Err(why) => model::no_task(plan.tasks@, task@) && why@ == no_task_text(task@, run@),
        },
{
    match plan.find(task) {
        Some(i) => Ok(
            OracleCall {
                requires_oracle: plan.tasks[i].requires_fp_oracle(),
                reproduction_tests: copy_opt(&plan.tasks[i].reproduction_tests),
                run_dir: run_dir(rs, task, cwd),
            },
        ),
        None => Err(no_task(task, run)),
    }
}

/// The oracle is asked only about a task that is to be verified, and only where
/// there is a plan that has the task. Anything else leaves the task to the older
/// gate.
pub fn gate_call(
    status: Status,
    plan: Option<&Decomposition>,
    rs: &RunState,
    run: &str,
    task: &str,
    cwd: &str,
) -> (r: Option<OracleCall>)
    ensures
        r is Some <==> status == Status::Verified && plan is Some && !model::no_task(
            plan->0.tasks@,
            task@,
        ),
        r matches Some(call) ==> exists|i: int| #[trigger]
            model::is_task(plan->0.tasks@, task@, i) && asks_about(
                *plan->0,
                i,
                rs@.tasks,
                task@,
                cwd@,
                call,
            ),
{
    if status != Status::Verified {
        return None;
    }
    match plan {
        Some(p) => match oracle_call(p, rs, run, task, cwd) {
            Ok(call) => {
                proof {
                    let i = choose|i: int| #[trigger] model::is_task(p.tasks@, task@, i);
                    assert(p.tasks@[i].id@ == task@);
                }
                Some(call)
            },
            Err(_) => None,
        },
        None => None,
    }
}

// ---- freeing and cancelling ----------------------------------------------

/// A task that starts over.
pub open spec fn freed(t: TaskView) -> TaskView {
    TaskView { status: Status::Pending, worktree: None, branch: None, updated_at: None, ..t }
}

/// Task `i` is the first one called by one of the names.
pub open spec fn is_named(tasks: Seq<TaskView>, ids: Seq<Seq<char>>, i: int) -> bool {
    exists|k: int| 0 <= k < ids.len() && state::first_called(tasks, #[trigger] ids[k], i)
}

/// The tasks after those with these names have been freed.
pub open spec fn after_freeing(tasks: Seq<TaskView>, ids: Seq<Seq<char>>) -> Seq<TaskView> {
    Seq::new(
        tasks.len(),
        |i: int|
            if is_named(tasks, ids, i) {
                freed(tasks[i])
            } else {
                tasks[i]
            },
    )
}

/// What a request to free tasks comes to: their names, or why it is refused.
pub open spec fn to_free(
    tasks: Seq<TaskView>,
    run: Seq<char>,
    task: Option<Seq<char>>,
    all_stuck: bool,
    stuck: Seq<Seq<char>>,
    r: Result<Seq<Seq<char>>, Seq<char>>,
) -> bool {
    match task {
        Some(id) => {
            &&& state::none_called(tasks, id) ==> r == Err::<Seq<Seq<char>>, Seq<char>>(
                no_task_text(id, run),
            )
            &&& forall|i: int| #[trigger]
                state::first_called(tasks, id, i) ==> r == (if tasks[i].status == Status::Running
                    || tasks[i].status == Status::Failed {
                    Ok::<Seq<Seq<char>>, Seq<char>>(seq![id])
                } else {
                    Err(
                        text::around("task '"@, id, "' has status "@) + status_name(tasks[i].status)
                            + "; only running/failed tasks can be abandoned"@,
                    )
                })
        },
        None => r == (if all_stuck {
            Ok::<Seq<Seq<char>>, Seq<char>>(stuck)
        } else {
            Err("specify --task <id> or --all-stuck"@)
        }),
    }
}

/// The names of the tasks to free. A task that is named has to be running or
/// failed; otherwise all those that are stuck are freed, if that is asked for.
pub fn abandon_ids(
    rs: &RunState,
    run: &str,
    task: Option<&str>,
    all_stuck: bool,
    stuck: Vec<String>,
) -> (r: Result<Vec<String>, String>)
    ensures
        to_free(
            rs@.tasks,
            run@,
            text::opt_str(task),
            all_stuck,
            text::texts(stuck@),
            match r {
                Ok(ids) => Ok(text::texts(ids@)),
                Err(why) => Err(why@),
            },
        ),
{
    match task {
        Some(id) => {
            let i = match find_task(&rs.tasks, id) {
                Some(i) => i,
                None => {
                    proof {
                        assert forall|k: int| !#[trigger]
                            state::first_called(rs@.tasks, id@, k) by {
                            if state::first_called(rs@.tasks, id@, k) {
                                assert(rs@.tasks[k].id != id@);
                            }
                        }
                    }
                    return Err(no_task(id, run));
                },
            };
            assert(rs@.tasks[i as int] == rs.tasks@[i as int]@);
            proof {
                assert(!state::none_called(rs@.tasks, id@)) by {
                    assert(rs@.tasks[i as int].id == id@);
                }
                assert forall|k: int| #[trigger]
                    state::first_called(rs@.tasks, id@, k) implies k == i by {
                    state::lemma_first_is_one(rs@.tasks, id@, k, i as int);
                }
            }
            let status = rs.tasks[i].status;
            if status != Status::Running && status != Status::Failed {
                let mut why = put_around("task '", id, "' has status ");
                why.push_str(name_of(status));
                why.push_str("; only running/failed tasks can be abandoned");
                return Err(why);
            }
            let mut ids: Vec<String> = Vec::new();
            ids.push(owned(id));
            assert(text::texts(ids@) =~= seq![id@]);
            Ok(ids)
        },
        None => {
            if all_stuck {
                Ok(stuck)
            } else {
                Err(owned("specify --task <id> or --all-stuck"))
            }
        },
    }
}

/// That a task is gone.
pub open spec fn gone_text(task: Seq<char>, run: Seq<char>) -> Seq<char> {
    text::around("task '"@, task, "' not found in run '"@) + run + "'"@
}

/// Frees the tasks with these names: they are pending again, with neither
/// worktree nor branch. A name that no task has leaves the run as it is, and the
/// first such name is reported.
pub fn abandon(rs: &mut RunState, run: &str, ids: &Vec<String>) -> (r: Result<(), String>)
    ensures
        match r {
            Ok(_) => {
                &&& forall|k: int|
                    0 <= k < ids@.len() ==> !state::none_called(
                        old(rs)@.tasks,
                        #[trigger] ids@[k]@,
                    )
                &&& final(rs)@ == (RunView {
                    tasks: after_freeing(old(rs)@.tasks, text::texts(ids@)),
                    ..old(rs)@
                })
            },
            Err(why) => {
                &&& final(rs)@ == old(rs)@
                &&& exists|k: int|
                    0 <= k < ids@.len() && state::none_called(old(rs)@.tasks, #[trigger] ids@[k]@)
                        && why@ == gone_text(ids@[k]@, run@) && forall|j: int|
                        0 <= j < k ==> !state::none_called(old(rs)@.tasks, #[trigger] ids@[j]@)
            },
        },
        final(rs)@.tasks.len() == old(rs)@.tasks.len(),
        forall|i: int|
            0 <= i < old(rs)@.tasks.len() && !text::texts(ids@).contains(
                (#[trigger] old(rs)@.tasks[i]).id,
            ) ==> final(rs)@.tasks[i] == old(rs)@.tasks[i],
{
    let mut places: Vec<usize> = Vec::new();
    let mut k: usize = 0;
    while k < ids.len()
        invariant
            *rs == *old(rs),
            k <= ids@.len(),
            places@.len() == k,
            forall|j: int|
                0 <= j < k ==> state::first_called(
                    rs@.tasks,
                    #[trigger] ids@[j]@,
                    places@[j] as int,
                ),
        decreases ids@.len() - k,
    {
        match find_task(&rs.tasks, ids[k].as_str()) {
            Some(i) => places.push(i),
            None => {
                let mut why = put_around("task '", ids[k].as_str(), "' not found in run '");
                why.push_str(run);
                why.push_str("'");
                proof {
                    assert(state::none_called(rs@.tasks, ids@[k as int]@));
                    assert forall|j: int| 0 <= j < k implies !state::none_called(
                        rs@.tasks,
                        #[trigger] ids@[j]@,
                    ) by {
                        assert(state::first_called(rs@.tasks, ids@[j]@, places@[j] as int));
                    }
                }
                return Err(why);
            },
        }
        k += 1;
    }
    let ghost views = rs@.tasks;
    let ghost names = text::texts(ids@);
    let mut j: usize = 0;
    assert(after_freeing(views, names.take(0)) =~= views);
    while j < places.len()
        invariant
            views == old(rs)@.tasks,
            names == text::texts(ids@),
            places@.len() == ids@.len(),
            j <= places@.len(),
            forall|m: int|
                0 <= m < ids@.len() ==> state::first_called(
                    views,
                    #[trigger] ids@[m]@,
                    places@[m] as int,
                ),
            rs@ == (RunView { tasks: after_freeing(views, names.take(j as int)), ..old(rs)@ }),
        decreases places@.len() - j,
    {
        let i = places[j];
        assert(state::first_called(views, ids@[j as int]@, i as int));
        assert(rs@.tasks.len() == rs.tasks@.len());
        assert(rs@.tasks[i as int] == rs.tasks@[i as int]@);
        let ghost before = rs@.tasks;
        let mut t = rs.tasks[i].clone();
        t.status = Status::Pending;
        t.worktree = None;
        t.branch = None;
        t.updated_at = None;
        let ghost after = t@;
        rs.tasks.set(i, t);
        proof {
            let upto = names.take(j as int + 1);
            assert(rs@.tasks =~= before.update(i as int, after));
            assert forall|m: int| 0 <= m < views.len() implies is_named(views, upto, m) == (
            is_named(views, names.take(j as int), m) || m == i) by {
                if is_named(views, upto, m) {
                    let x = choose|x: int|
                        0 <= x < upto.len() && state::first_called(views, #[trigger] upto[x], m);
                    if x < j {
                        assert(names.take(j as int)[x] == upto[x]);
                    } else {
                        state::lemma_first_is_one(views, upto[x], m, i as int);
                    }
                }
                if is_named(views, names.take(j as int), m) {
                    let x = choose|x: int|
                        0 <= x < j && state::first_called(
                            views,
                            #[trigger] names.take(j as int)[x],
                            m,
                        );
                    assert(upto[x] == names.take(j as int)[x]);
                }
                if m == i {
                    assert(upto[j as int] == ids@[j as int]@);
                    assert(state::first_called(views, upto[j as int], m));
                }
            }
            assert(rs@.tasks =~= after_freeing(views, upto));
        }
        j += 1;
    }
    proof {
        assert(names.take(j as int) =~= names);
        assert forall|m: int| 0 <= m < ids@.len() implies !state::none_called(
            views,
            #[trigger] ids@[m]@,
        ) by {
            assert(state::first_called(views, ids@[m]@, places@[m] as int));
            assert(views[places@[m] as int].id == ids@[m]@);
        }
    }
    Ok(())
}

/// What is said of the tasks that were freed.
pub open spec fn abandon_text(ids: Seq<Seq<char>>) -> Seq<char> {
    if ids.len() == 0 {
        "nothing to abandon"@
    } else {
        text::around("abandoned "@, text::dec(ids.len()), " task(s): "@) + text::joined(ids, ", "@)
    }
}

/// What to say of the tasks that were freed.
pub fn abandon_line(ids: &Vec<String>) -> (r: String)
    ensures
        r@ == abandon_text(text::texts(ids@)),
{
    assert(text::texts(ids@).len() == ids@.len());
    if ids.len() == 0 {
        return owned("nothing to abandon");
    }
    let count = dec_usize(ids.len());
    let mut r = put_around("abandoned ", count.as_str(), " task(s): ");
    let list = join(ids, ", ");
    r.push_str(list.as_str());
    r
}

/// A task that was called off.
pub open spec fn called_off(t: TaskView, now: i64) -> TaskView {
    TaskView {
        status: Status::Cancelled,
        worktree: None,
        branch: None,
        updated_at: Some(now),
        ..t
    }
}

/// What came of calling a task off.
#[derive(Debug, PartialEq, Eq)]
pub struct CancelDone {
    /// The run was changed, and is to be saved.
    pub changed: bool,
    pub message: String,
}

/// What is said of a task that was called off, by what it was before.
pub open spec fn cancel_text(task: Seq<char>, was: Status) -> Seq<char> {
    match was {
        Status::Cancelled => text::around("task '"@, task, "' is already cancelled"@),
        Status::Running => text::around(
            "cancelled task '"@,
            task,
            "' (was running — in-flight worker may still complete; stop it manually if needed)"@,
        ),
        _ => text::around("cancelled task '"@, task, "' (was "@) + status_name(was) + ")"@,
    }
}

/// Calls a task off. A verified one stays verified, and one that is off already
/// stays as it is.
pub fn cancel(rs: &mut RunState, run: &str, task: &str, now: i64) -> (r: Result<CancelDone, String>)
    ensures
        state::none_called(old(rs)@.tasks, task@) ==> final(rs)@ == old(rs)@ && (r matches Err(
            why,
        ) && why@ == no_task_text(task@, run@)),
        forall|i: int| #[trigger]
            state::first_called(old(rs)@.tasks, task@, i) ==> match old(rs)@.tasks[i].status {
                Status::Verified => final(rs)@ == old(rs)@ && (r matches Err(why) && why@
                    == text::around("task '"@, task@, "' is already verified and cannot be cancelled"@)),
                Status::Cancelled => final(rs)@ == old(rs)@ && (r matches Ok(done) && !done.changed
                    && done.message@ == cancel_text(task@, Status::Cancelled)),
                was => final(rs)@ == (RunView {
                    tasks: old(rs)@.tasks.update(i, called_off(old(rs)@.tasks[i], now)),
                    ..old(rs)@
                }) && (r matches Ok(done) && done.changed && done.message@ == cancel_text(
                    task@,
                    was,
                )),
            },
        final(rs)@.tasks.len() == old(rs)@.tasks.len(),
        r is Err ==> final(rs)@ == old(rs)@,
        r matches Ok(done) ==> (!done.changed ==> final(rs)@ == old(rs)@),
        forall|k: int|
            0 <= k < old(rs)@.tasks.len() && (#[trigger] old(rs)@.tasks[k]).id != task@
                ==> final(rs)@.tasks[k] == old(rs)@.tasks[k],
        r is Ok ==> exists|i: int|
            0 <= i < old(rs)@.tasks.len() && (#[trigger] old(rs)@.tasks[i]).id == task@
                && old(rs)@.tasks[i].status != Status::Verified && final(rs)@.tasks[i].status
                == Status::Cancelled,
{
    let i = match find_task(&rs.tasks, task) {
        Some(i) => i,
        None => {
            proof {
                assert forall|k: int| !#[trigger] state::first_called(rs@.tasks, task@, k) by {
                    if state::first_called(rs@.tasks, task@, k) {
                        assert(rs@.tasks[k].id != task@);
                    }
                }
            }
            return Err(no_task(task, run));
        },
    };
    assert(rs@.tasks[i as int] == rs.tasks@[i as int]@);
    proof {
        assert(!state::none_called(rs@.tasks, task@)) by {
            assert(rs@.tasks[i as int].id == task@);
        }
        assert forall|k: int| #[trigger] state::first_called(rs@.tasks, task@, k) implies k
            == i by {
            state::lemma_first_is_one(rs@.tasks, task@, k, i as int);
        }
    }
    let ghost before = rs@;
    let was = rs.tasks[i].status;
    if was == Status::Verified {
        return Err(put_around("task '", task, "' is already verified and cannot be cancelled"));
    }
    if was == Status::Cancelled {
        return Ok(
            CancelDone { changed: false, message: put_around("task '", task, "' is already cancelled") },
        );
    }
    let mut t = rs.tasks[i].clone();
    t.status = Status::Cancelled;
    t.worktree = None;
    t.branch = None;
    t.updated_at = Some(now);
    let ghost after = t@;
    rs.tasks.set(i, t);
    assert(rs@.tasks =~= before.tasks.update(i as int, after));
    let message = if was == Status::Running {
        put_around(
            "cancelled task '",
            task,
            "' (was running — in-flight worker may still complete; stop it manually if needed)",
        )
    } else {
        let mut m = put_around("cancelled task '", task, "' (was ");
        m.push_str(name_of(was));
        m.push_str(")");
        m
    };
    Ok(CancelDone { changed: true, message })
}

// ---- telling where a run stands ------------------------------------------

/// One task as it is handed over to whoever goes on with the run.
#[derive(Debug)]
pub struct ResumeEntry {
    pub id: String,
    pub status: &'static str,
    pub worktree: Option<String>,
    pub branch: Option<String>,
    /// Where the task stands in the plan.
    pub planned: Option<usize>,
}

pub struct ResumeView {
    pub id: Seq<char>,
    pub status: Seq<char>,
    pub worktree: Option<Seq<char>>,
    pub branch: Option<Seq<char>>,
    pub planned: Option<usize>,
}

impl View for ResumeEntry {
    type V = ResumeView;

    open spec fn view(&self) -> ResumeView {
        ResumeView {
            id: self.id@,
            status: self.status@,
            worktree: text::opt(self.worktree),
            branch: text::opt(self.branch),
            planned: self.planned,
        }
    }
}

/// Entries, one by one.
pub open spec fn resume_views(list: Seq<ResumeEntry>) -> Seq<ResumeView> {
    list.map_values(|e: ResumeEntry| e@)
}

/// Where the last task called `id` stands among the first `n` of a plan.
pub open spec fn last_called(plan: Seq<model::Task>, id: Seq<char>, n: nat) -> Option<usize>
    decreases n,
{
    if n == 0 {
        None
    } else if plan[n - 1].id@ == id {
        Some((n - 1) as usize)
    } else {
        last_called(plan, id, (n - 1) as nat)
    }
}

/// A task with what the plan says of it.
pub open spec fn resume_entry(t: TaskView, plan: Seq<model::Task>) -> ResumeView {
    ResumeView {
        id: t.id,
        status: state::word_for(t.status),
        worktree: t.worktree,
        branch: t.branch,
        planned: last_called(plan, t.id, plan.len()),
    }
}

/// What a run needs for a task: work, repair, a check, or nothing.
#[derive(Debug, Clone, Copy, PartialEq, Eq, Structural)]
pub enum Need {
    Work,
    Repair,
    Check,
    Nothing,
}

/// What a task needs, by its status.
pub open spec fn need_of(s: Status) -> Need {
    match s {
        Status::Pending | Status::Running => Need::Work,
        Status::Failed => Need::Repair,
        Status::Done => Need::Check,
        Status::Verified | Status::Cancelled => Need::Nothing,
    }
}

/// The tasks that need `need`, in order.
pub open spec fn needing(tasks: Seq<TaskView>, plan: Seq<model::Task>, need: Need) -> Seq<
    ResumeView,
>
    decreases tasks.len(),
{
    if tasks.len() == 0 {
        Seq::empty()
    } else {
        let before = needing(tasks.drop_last(), plan, need);
        if need_of(tasks.last().status) == need {
            before.push(resume_entry(tasks.last(), plan))
        } else {
            before
        }
    }
}

/// Where a stopped run stands.
#[derive(Debug)]
pub struct ResumeContext {
    pub run_id: String,
    pub goal: String,
    pub verified_count: usize,
    pub total_count: usize,
    pub pending_tasks: Vec<ResumeEntry>,
    pub failed_tasks: Vec<ResumeEntry>,
    pub needs_verification: Vec<ResumeEntry>,
}

fn place_in_plan(plan: &Decomposition, id: &str) -> (r: Option<usize>)
    ensures
        r == last_called(plan.tasks@, id@, plan.tasks@.len()),
{
    let mut n: usize = plan.tasks.len();
    while n > 0
        invariant
            n <= plan.tasks@.len(),
            last_called(plan.tasks@, id@, plan.tasks@.len()) == last_called(
                plan.tasks@,
                id@,
                n as nat,
            ),
        decreases n,
    {
        if same(&plan.tasks[n - 1].id, id) {
            return Some(n - 1);
        }
        n -= 1;
    }
    None
}

/// Where a stopped run stands: which tasks still need work, which need repair,
/// which need a check, and how many need nothing.
pub fn resume_context(rs: &RunState, plan: &Decomposition) -> (r: ResumeContext)
    ensures
        r.run_id@ == rs@.run_id,
        r.goal@ == rs@.goal,
        resume_views(r.pending_tasks@) == needing(rs@.tasks, plan.tasks@, Need::Work),
        resume_views(r.failed_tasks@) == needing(rs@.tasks, plan.tasks@, Need::Repair),
        resume_views(r.needs_verification@) == needing(rs@.tasks, plan.tasks@, Need::Check),
        r.verified_count == needing(rs@.tasks, plan.tasks@, Need::Nothing).len(),
        r.total_count == rs@.tasks.len(),
{
    let ghost views = rs@.tasks;
    let ghost planned = plan.tasks@;
    let total = rs.tasks.len();
    let mut pending_tasks: Vec<ResumeEntry> = Vec::new();
    let mut failed_tasks: Vec<ResumeEntry> = Vec::new();
    let mut needs_verification: Vec<ResumeEntry> = Vec::new();
    let mut verified_count: usize = 0;
    assert(resume_views(pending_tasks@) =~= needing(views.take(0), planned, Need::Work));
    assert(resume_views(failed_tasks@) =~= needing(views.take(0), planned, Need::Repair));
    assert(resume_views(needs_verification@) =~= needing(views.take(0), planned, Need::Check));
    let mut i: usize = 0;
    while i < total
        invariant
            views == rs@.tasks,
            planned == plan.tasks@,
            total == rs.tasks@.len(),
            i <= total,
            resume_views(pending_tasks@) == needing(views.take(i as int), planned, Need::Work),
            resume_views(failed_tasks@) == needing(views.take(i as int), planned, Need::Repair),
            resume_views(needs_verification@) == needing(
                views.take(i as int),
                planned,
                Need::Check,
            ),
            verified_count == needing(views.take(i as int), planned, Need::Nothing).len(),
            verified_count <= i,
        decreases total - i,
    {
        let ghost upto = views.take(i as int + 1);
        assert(upto.drop_last() =~= views.take(i as int));
        assert(views[i as int] == rs.tasks@[i as int]@);
        assert(upto.last() == views[i as int]);
        let t = &rs.tasks[i];
        let entry = ResumeEntry {
            id: t.id.clone(),
            status: status_word(t.status),
            worktree: copy_opt(&t.worktree),
            branch: copy_opt(&t.branch),
            planned: place_in_plan(plan, t.id.as_str()),
        };
        let ghost added = entry@;
        assert(added == resume_entry(views[i as int], planned));
        match t.status {
            Status::Pending | Status::Running => {
                let ghost before = resume_views(pending_tasks@);
                pending_tasks.push(entry);
                assert(resume_views(pending_tasks@) =~= before.push(added));
            },
            Status::Failed => {
                let ghost before = resume_views(failed_tasks@);
                failed_tasks.push(entry);
                assert(resume_views(failed_tasks@) =~= before.push(added));
            },
            Status::Done => {
                let ghost before = resume_views(needs_verification@);
                needs_verification.push(entry);
                assert(resume_views(needs_verification@) =~= before.push(added));
            },
            Status::Verified | Status::Cancelled => {
                verified_count += 1;
            },
        }
        i += 1;
    }
    assert(views.take(i as int) =~= views);
    ResumeContext {
        run_id: rs.run_id.clone(),
        goal: rs.goal.clone(),
        verified_count,
        total_count: total,
        pending_tasks,
        failed_tasks,
        needs_verification,
    }
}

/// One line on a run: its id, how far it is, its goal, whether it is paused and
/// where it runs.
pub open spec fn run_line_text(run: RunView, done: nat, total: nat) -> Seq<char> {
    run.run_id + "\t"@ + text::dec(done) + "/"@ + text::dec(total) + "\t"@ + run.goal + (
    if run.paused {
        " [paused]"@
    } else {
        ""@
    }) + (match run.terminal_label {
        Some(label) => " @"@ + label,
        None => ""@,
    })
}

/// One line on a run.
pub fn run_line(rs: &RunState, done: usize, total: usize) -> (r: String)
    ensures
        r@ == run_line_text(rs@, done as nat, total as nat),
{
    let mut r = rs.run_id.clone();
    r.push_str("\t");
    let d = dec_usize(done);
    r.push_str(d.as_str());
    r.push_str("/");
    let t = dec_usize(total);
    r.push_str(t.as_str());
    r.push_str("\t");
    r.push_str(rs.goal.as_str());
    if rs.paused {
        r.push_str(" [paused]");
    } else {
        r.push_str("");
    }
    match &rs.terminal_label {
        Some(label) => {
            let mut tag = owned(" @");
            tag.push_str(label.as_str());
            r.push_str(tag.as_str());
        },
        None => {
            r.push_str("");
        },
    }
    r
}

/// What `gate` says of a run, and how it exits.
#[derive(Debug)]
pub struct GateSaid {
    pub lines: Vec<String>,
    pub exit_code: i32,
}

/// What `gate` says of a run: that the run is complete, or what it lacks.
pub open spec fn gate_text(run: Seq<char>, reasons: Seq<Seq<char>>) -> Seq<Seq<char>> {
    if reasons.len() == 0 {
        seq![text::around("gate PASS: run '"@, run, "' complete"@)]
    } else {
        seq![text::around("gate FAIL ("@, text::dec(reasons.len()), " reason(s)):"@)]
            + reasons.map_values(|r: Seq<char>| "  - "@ + r)
    }
}

/// What `gate` says of a run, given what the run lacks.
pub fn gate_said(run: &str, reasons: &Vec<String>) -> (r: GateSaid)
    ensures
        text::texts(r.lines@) == gate_text(run@, text::texts(reasons@)),
        r.exit_code == (if reasons@.len() == 0 {
            0i32
        } else {
            1i32
        }),
{
    let ghost why = text::texts(reasons@);
    assert(why.len() == reasons@.len());
    let mut lines: Vec<String> = Vec::new();
    if reasons.len() == 0 {
        lines.push(put_around("gate PASS: run '", run, "' complete"));
        assert(text::texts(lines@) =~= gate_text(run@, why));
        return GateSaid { lines, exit_code: 0 };
    }
    let count = dec_usize(reasons.len());
    lines.push(put_around("gate FAIL (", count.as_str(), " reason(s)):"));
    let ghost wanted = gate_text(run@, why);
    let mut i: usize = 0;
    while i < reasons.len()
        invariant
            why == text::texts(reasons@),
            reasons@.len() > 0,
            wanted == gate_text(run@, why),
            i <= reasons@.len(),
            lines@.len() == i + 1,
            forall|k: int| 0 <= k < lines@.len() ==> (#[trigger] lines@[k])@ == wanted[k],
        decreases reasons@.len() - i,
    {
        let mut line = owned("  - ");
        line.push_str(reasons[i].as_str());
        assert(wanted[i + 1] == "  - "@ + why[i as int]);
        lines.push(line);
        i += 1;
    }
    assert(text::texts(lines@) =~= wanted);
    GateSaid { lines, exit_code: 1 }
}

/// One change that reconciling a run makes.
#[derive(Debug)]
pub struct Change {
    pub task_id: String,
    pub old_status: Status,
    pub new_status: Status,
    pub reason: String,
}

/// What is said of a change.
pub open spec fn change_text(c: Change) -> Seq<char> {
    if c.old_status == c.new_status {
        text::around("  ["@, c.task_id@, "]  "@) + c.reason@ + " (status unchanged: "@ + status_name(
            c.old_status,
        ) + ")"@
    } else {
        text::around("  ["@, c.task_id@, "]  "@) + status_name(c.old_status) + " → "@ + status_name(
            c.new_status,
        ) + "  ("@ + c.reason@ + ")"@
    }
}

/// What to say of a change.
pub fn change_line(c: &Change) -> (r: String)
    ensures
        r@ == change_text(*c),
{
    let mut r = put_around("  [", c.task_id.as_str(), "]  ");
    if c.old_status == c.new_status {
        r.push_str(c.reason.as_str());
        r.push_str(" (status unchanged: ");
        r.push_str(name_of(c.old_status));
        r.push_str(")");
    } else {
        r.push_str(name_of(c.old_status));
        r.push_str(" → ");
        r.push_str(name_of(c.new_status));
        r.push_str("  (");
        r.push_str(c.reason.as_str());
        r.push_str(")");
    }
    r
}

/// What is left to say after the changes of reconciling a run, and whether the
/// run is to be saved.
#[derive(Debug)]
pub struct Reconciled {
    pub save: bool,
    pub line: String,
}

/// What reconciling a run comes to. Without changes, or in a dry run, nothing is
/// saved.
pub fn reconcile(run: &str, changes: usize, dry_run: bool, done: usize, total: usize) -> (r:
    Reconciled)
    ensures
        r.save == (changes > 0 && !dry_run),
        r.line@ == (if changes == 0 {
            text::around("reconcile: nothing to change for run '"@, run@, "'"@)
        } else if dry_run {
            text::around("dry-run: "@, text::dec(changes as nat), " change(s) would be applied"@)
        } else {
            text::around(
                "reconcile: applied "@,
                text::dec(changes as nat),
                " change(s) — run '"@,
            ) + run@ + "': "@ + text::dec(done as nat) + "/"@ + text::dec(total as nat)
                + " verified"@
        }),
{
    if changes == 0 {
        return Reconciled {
            save: false,
            line: put_around("reconcile: nothing to change for run '", run, "'"),
        };
    }
    let count = dec_usize(changes);
    if dry_run {
        return Reconciled {
            save: false,
            line: put_around("dry-run: ", count.as_str(), " change(s) would be applied"),
        };
    }
    let mut line = put_around("reconcile: applied ", count.as_str(), " change(s) — run '");
    line.push_str(run);
    line.push_str("': ");
    let d = dec_usize(done);
    line.push_str(d.as_str());
    line.push_str("/");
    let t = dec_usize(total);
    line.push_str(t.as_str());
    line.push_str(" verified");
    Reconciled { save: true, line }
}

// ---- claims --------------------------------------------------------------

/// How a command exits that claims files or tasks: 1 where anything was skipped.
pub fn claim_exit(outcome: &ClaimOutcome) -> (r: i32)
    ensures
        r == (if outcome@.skipped.len() == 0 {
            0i32
        } else {
            1i32
        }),
{
    if outcome.skipped.len() == 0 {
        0
    } else {
        1
    }
}

/// Who holds a task.
#[derive(Debug)]
pub struct Held {
    pub claimed: bool,
    pub holder_run: Option<String>,
    pub exit_code: i32,
}

/// Whether a task is claimed, and by which run: 0 where it is, 1 where it is not.
pub fn is_claimed(live: &Registry, hashkey: &str) -> (r: Held)
    requires
        live.wf(),
    ensures
        r.claimed == live@.task_claims.contains_key(hashkey@),
        text::opt(r.holder_run) == (if live@.task_claims.contains_key(hashkey@) {
            Some(live@.task_claims[hashkey@].run_id)
        } else {
            None
        }),
        r.exit_code == (if r.claimed {
            0i32
        } else {
            1i32
        }),
{
    match live.task_claims.get(hashkey) {
        Some(c) => Held { claimed: true, holder_run: Some(c.run_id.clone()), exit_code: 0 },
        None => Held { claimed: false, holder_run: None, exit_code: 1 },
    }
}

/// The files that a run claims: those it names, or all those of its plan.
pub fn claim_list(named: Vec<String>, plan: Option<&Decomposition>) -> (r: Vec<String>)
    ensures
        text::texts(r@) == (if named@.len() > 0 {
            text::texts(named@)
        } else {
            match plan {
                Some(p) => model::all_files(p.tasks@),
                None => Seq::empty(),
            }
        }),
{
    if named.len() == 0 {
        model::decomposition_files(plan)
    } else {
        named
    }
}

// ---- criteria ------------------------------------------------------------

/// What is to be done about the criteria of a task.
#[derive(Debug, PartialEq, Eq)]
pub enum CriteriaStep {
    /// There is no such task.
    NoTask(String),
    /// It has none: nothing is mechanical, and the verifier runs.
    Nothing,
    /// They are to be classified.
    Classify(String),
}

/// What is to be done about the criteria of a task.
pub fn criteria_step(plan: &Decomposition, run: &str, task: &str) -> (r: CriteriaStep)
    ensures
        model::no_task(plan.tasks@, task@) ==> (r matches CriteriaStep::NoTask(why) && why@
            == no_task_text(task@, run@)),
        forall|i: int| #[trigger]
            model::is_task(plan.tasks@, task@, i) ==> match plan.tasks@[i].done_criteria {
                None => r == CriteriaStep::Nothing,
                Some(c) => r matches CriteriaStep::Classify(s) && s@ == c@,
            },
{
    match plan.find(task) {
        Some(i) => {
            proof {
                assert(!model::no_task(plan.tasks@, task@)) by {
                    assert(plan.tasks@[i as int].id@ == task@);
                }
                assert forall|k: int| #[trigger] model::is_task(plan.tasks@, task@, k) implies k
                    == i by {
                    if k < i {
                        assert(plan.tasks@[k].id@ != task@);
                    } else if i < k {
                        assert(plan.tasks@[i as int].id@ != task@);
                    }
                }
            }
            match &plan.tasks[i].done_criteria {
                Some(c) => CriteriaStep::Classify(c.clone()),
                None => CriteriaStep::Nothing,
            }
        },
        None => {
            proof {
                assert forall|k: int| !#[trigger] model::is_task(plan.tasks@, task@, k) by {
                    if model::is_task(plan.tasks@, task@, k) {
                        assert(plan.tasks@[k].id@ != task@);
                    }
                }
            }
            CriteriaStep::NoTask(no_task(task, run))
        },
    }
}

/// A command that was run to check a criterion, and what came of it.
#[derive(Debug)]
pub struct Evidence {
    pub cmd: Vec<String>,
    pub passed: bool,
    pub output: String,
}

/// What is reported of criteria that a command alone cannot settle.
#[derive(Debug)]
pub struct CriteriaReport {
    pub mechanical: bool,
    pub behavioral: bool,
    pub skip_verifier: bool,
    pub evidence: Option<Evidence>,
}

/// What to report of criteria that a command alone cannot settle. A command that
/// stands in them was run for evidence: whatever came of it, the verifier runs.
pub fn unsettled_criteria(behavioral: bool, evidence: Option<Evidence>) -> (r: CriteriaReport)
    ensures
        r.mechanical == (evidence is Some),
        r.behavioral == behavioral,
        !r.skip_verifier,
        r.evidence == evidence,
{
    CriteriaReport {
        mechanical: evidence.is_some(),
        behavioral,
        skip_verifier: false,
        evidence,
    }
}

// ---- checkpoints ---------------------------------------------------------

/// The commit of a task's branch.
#[derive(Debug, PartialEq, Eq)]
pub struct TaskSha {
    pub task_id: String,
    pub sha: String,
}

pub struct ShaView {
    pub task_id: Seq<char>,
    pub sha: Seq<char>,
}

impl View for TaskSha {
    type V = ShaView;

    open spec fn view(&self) -> ShaView {
        ShaView { task_id: self.task_id@, sha: self.sha@ }
    }
}

/// Commits, one by one.
pub open spec fn sha_views(list: Seq<TaskSha>) -> Seq<ShaView> {
    list.map_values(|s: TaskSha| s@)
}

/// The commits of the branches of the first `n` tasks: those that have a branch
/// and of which git knows the commit.
pub open spec fn shas_of(tasks: Seq<TaskView>, tips: Seq<Option<String>>, n: nat) -> Seq<ShaView>
    decreases n,
{
    if n == 0 {
        Seq::empty()
    } else {
        let before = shas_of(tasks, tips, (n - 1) as nat);
        if tasks[n - 1].branch is Some && tips[n - 1] is Some {
            before.push(
                ShaView { task_id: tasks[n - 1].id, sha: text::trim(tips[n - 1]->0@) },
            )
        } else {
            before
        }
    }
}

/// The commits of the branches of a run's tasks, given what git says of each
/// task's branch.
pub fn capture_branch_shas(rs: &RunState, tips: &Vec<Option<String>>) -> (r: Vec<TaskSha>)
    requires
        tips@.len() == rs@.tasks.len(),
    ensures
        sha_views(r@) == shas_of(rs@.tasks, tips@, rs@.tasks.len()),
{
    let ghost views = rs@.tasks;
    let mut out: Vec<TaskSha> = Vec::new();
    assert(sha_views(out@) =~= Seq::empty());
    let mut i: usize = 0;
    while i < rs.tasks.len()
        invariant
            views == rs@.tasks,
            views.len() == rs.tasks@.len(),
            tips@.len() == rs.tasks@.len(),
            i <= rs.tasks@.len(),
            sha_views(out@) == shas_of(views, tips@, i as nat),
        decreases rs.tasks@.len() - i,
    {
        assert(views[i as int] == rs.tasks@[i as int]@);
        if rs.tasks[i].branch.is_some() {
            match &tips[i] {
                Some(tip) => {
                    let s = TaskSha {
                        task_id: rs.tasks[i].id.clone(),
                        sha: trimmed(tip.as_str()),
                    };
                    let ghost before = sha_views(out@);
                    let ghost added = s@;
                    out.push(s);
                    assert(sha_views(out@) =~= before.push(added));
                },
                None => {},
            }
        }
        i += 1;
    }
    out
}

/// The commit that was noted for a task, the last one where there are several.
pub open spec fn sha_for(shas: Seq<ShaView>, id: Seq<char>) -> Option<Seq<char>>
    decreases shas.len(),
{
    if shas.len() == 0 {
        None
    } else if shas.last().task_id == id {
        Some(shas.last().sha)
    } else {
        sha_for(shas.drop_last(), id)
    }
}

fn find_sha(shas: &Vec<TaskSha>, id: &str) -> (r: Option<usize>)
    ensures
        match r {
            Some(i) => i < shas@.len() && sha_for(sha_views(shas@), id@) == Some(
                shas@[i as int].sha@,
            ),
            None => sha_for(sha_views(shas@), id@) is None,
        },
{
    let ghost all = sha_views(shas@);
    let mut n: usize = shas.len();
    assert(all.take(n as int) =~= all);
    while n > 0
        invariant
            all == sha_views(shas@),
            n <= shas@.len(),
            sha_for(all, id@) == sha_for(all.take(n as int), id@),
        decreases n,
    {
        assert(all.take(n as int).last() == shas@[n - 1]@);
        assert(all.take(n as int).drop_last() =~= all.take(n - 1));
        if same(&shas[n - 1].task_id, id) {
            return Some(n - 1);
        }
        n -= 1;
    }
    None
}

/// A worktree to put back to a commit.
#[derive(Debug, PartialEq, Eq)]
pub struct Reset {
    pub task_id: String,
    pub worktree: String,
    pub sha: String,
}

pub struct ResetView {
    pub task_id: Seq<char>,
    pub worktree: Seq<char>,
    pub sha: Seq<char>,
}

impl View for Reset {
    type V = ResetView;

    open spec fn view(&self) -> ResetView {
        ResetView { task_id: self.task_id@, worktree: self.worktree@, sha: self.sha@ }
    }
}

/// Worktrees to put back, one by one.
pub open spec fn reset_views(list: Seq<Reset>) -> Seq<ResetView> {
    list.map_values(|x: Reset| x@)
}

/// The worktrees to put back: those of tasks whose commit was noted.
pub open spec fn resets_for(tasks: Seq<TaskView>, shas: Seq<ShaView>) -> Seq<ResetView>
    decreases tasks.len(),
{
    if tasks.len() == 0 {
        Seq::empty()
    } else {
        let before = resets_for(tasks.drop_last(), shas);
        let t = tasks.last();
        if t.worktree is Some && sha_for(shas, t.id) is Some {
            before.push(
                ResetView {
                    task_id: t.id,
                    worktree: t.worktree->0,
                    sha: sha_for(shas, t.id)->0,
                },
            )
        } else {
            before
        }
    }
}

/// The worktrees to put back when a run goes back to a checkpoint.
pub fn restore_checkpoint(rs: &RunState, shas: &Vec<TaskSha>) -> (r: Vec<Reset>)
    ensures
        reset_views(r@) == resets_for(rs@.tasks, sha_views(shas@)),
{
    let ghost views = rs@.tasks;
    let ghost noted = sha_views(shas@);
    let mut out: Vec<Reset> = Vec::new();
    assert(reset_views(out@) =~= resets_for(views.take(0), noted));
    let mut i: usize = 0;
    while i < rs.tasks.len()
        invariant
            views == rs@.tasks,
            noted == sha_views(shas@),
            i <= rs.tasks@.len(),
            reset_views(out@) == resets_for(views.take(i as int), noted),
        decreases rs.tasks@.len() - i,
    {
        let ghost upto = views.take(i as int + 1);
        assert(upto.drop_last() =~= views.take(i as int));
        assert(views[i as int] == rs.tasks@[i as int]@);
        assert(upto.last() == views[i as int]);
        match &rs.tasks[i].worktree {
            Some(w) => match find_sha(shas, rs.tasks[i].id.as_str()) {
                Some(k) => {
                    let x = Reset {
                        task_id: rs.tasks[i].id.clone(),
                        worktree: w.clone(),
                        sha: shas[k].sha.clone(),
                    };
                    let ghost before = reset_views(out@);
                    let ghost added = x@;
                    out.push(x);
                    assert(reset_views(out@) =~= before.push(added));
                },
                None => {},
            },
            None => {},
        }
        i += 1;
    }
    assert(views.take(i as int) =~= views);
    out
}

// ---- laws ----------------------------------------------------------------

/// A task keeps its worktree and its branch when neither is mentioned.
pub proof fn what_is_left_out_is_kept(
    t: TaskView,
    req: SetView,
    fp: Option<bool>,
    tip: Option<Seq<char>>,
    now: i64,
)
    ensures
        !req.clear_worktree && req.worktree is None ==> after_set(t, req, fp, tip, now).worktree
            == t.worktree,
        !req.clear_branch && req.branch is None ==> after_set(t, req, fp, tip, now).branch
            == t.branch && after_set(t, req, fp, tip, now).branch_sha == t.branch_sha,
        req.model is None ==> after_set(t, req, fp, tip, now).model == t.model,
        req.cost_usd_bits is None ==> after_set(t, req, fp, tip, now).cost_usd_bits
            == t.cost_usd_bits,
{
}

/// A commit that was noted for a branch is not replaced: it goes only when the
/// branch is cleared.
pub proof fn the_first_commit_of_a_branch_stays(
    t: TaskView,
    req: SetView,
    fp: Option<bool>,
    tip: Option<Seq<char>>,
    now: i64,
)
    requires
        t.branch_sha is Some,
        !req.clear_branch,
    ensures
        after_set(t, req, fp, tip, now).branch_sha == t.branch_sha,
{
}

/// A task is never verified against an oracle that is refused.
pub proof fn a_refused_oracle_stops_verification(
    tasks: Seq<TaskView>,
    run: Seq<char>,
    task: Seq<char>,
    skipped: nat,
    verdict: OracleView,
)
    requires
        oracle::gates(verdict) == FpGateDecision::Reject,
    ensures
        stop_of(tasks, run, task, Status::Verified, skipped, Some(verdict)) is Some,
{
}

/// A task never runs while another live run holds one of its files.
pub proof fn a_held_file_stops_a_task(
    tasks: Seq<TaskView>,
    run: Seq<char>,
    task: Seq<char>,
    skipped: nat,
    verdict: Option<OracleView>,
)
    requires
        skipped > 0,
    ensures
        stop_of(tasks, run, task, Status::Running, skipped, verdict) is Some,
{
}

/// Every task of a stopped run is told of once: the four groups are as many as
/// the tasks.
pub proof fn every_task_is_told_of(tasks: Seq<TaskView>, plan: Seq<model::Task>)
    ensures
        needing(tasks, plan, Need::Work).len() + needing(tasks, plan, Need::Repair).len() + needing(
            tasks,
            plan,
            Need::Check,
        ).len() + needing(tasks, plan, Need::Nothing).len() == tasks.len(),
    decreases tasks.len(),
{
    if tasks.len() > 0 {
        every_task_is_told_of(tasks.drop_last(), plan);
    }
}

/// A seeded run has nothing but pending tasks, one for each of the plan.
pub proof fn a_seeded_run_is_pending(
    plan: Decomposition,
    run_id: Seq<char>,
    label: Option<Seq<char>>,
)
    ensures
        fresh_run(plan, run_id, label).tasks.len() == plan.tasks@.len(),
        forall|i: int|
            0 <= i < plan.tasks@.len() ==> (#[trigger] fresh_run(plan, run_id, label).tasks[i]).status
                == Status::Pending && fresh_run(plan, run_id, label).tasks[i].id
                == plan.tasks@[i].id@,
{
}

/// What a request gives and does not ask to clear, the task has afterwards; what
/// it asks to clear, the task is left without. The status and the time are those
/// of the request, and the name and the findings stay.
pub proof fn what_is_given_is_recorded(
    t: TaskView,
    req: SetView,
    fp: Option<bool>,
    tip: Option<Seq<char>>,
    now: i64,
)
    ensures
        ({
            let after = after_set(t, req, fp, tip, now);
            &&& after.id == t.id
            &&& after.findings == t.findings
            &&& after.status == req.status
            &&& after.updated_at == Some(now)
            &&& req.worktree is Some && !req.clear_worktree ==> after.worktree == req.worktree
            &&& req.clear_worktree ==> after.worktree is None
            &&& req.branch is Some && !req.clear_branch ==> after.branch == req.branch
            &&& req.clear_branch ==> after.branch is None && after.branch_sha is None
            &&& req.model is Some ==> after.model == req.model
            &&& req.cost_usd_bits is Some ==> after.cost_usd_bits == req.cost_usd_bits
        }),
{
}

/// The commit of a branch is read when the branch is first given: trimmed, and
/// none where none could be read. What was proved is recorded with a task that
/// verifies, and stays as it was with any other.
pub proof fn a_given_branch_brings_its_commit(
    t: TaskView,
    req: SetView,
    fp: Option<bool>,
    tip: Option<Seq<char>>,
    now: i64,
)
    ensures
        ({
            let after = after_set(t, req, fp, tip, now);
            &&& req.branch is Some && !req.clear_branch && t.branch_sha is None && tip is Some
                ==> after.branch_sha == Some(text::trim(tip->0))
            &&& t.branch_sha is None && (req.branch is None || tip is None) ==> after.branch_sha
                is None
            &&& req.status == Status::Verified ==> after.fp_oracle_valid == fp
            &&& req.status != Status::Verified ==> after.fp_oracle_valid == t.fp_oracle_valid
        }),
{
}

/// A request goes through exactly where the run has the task, no file of a task
/// that is to run is held by another run, and no oracle refused a task that is to
/// verify; and each stop has its own reason.
pub proof fn a_request_is_stopped_in_three_cases(
    tasks: Seq<TaskView>,
    run: Seq<char>,
    task: Seq<char>,
    status: Status,
    skipped: nat,
    verdict: Option<OracleView>,
)
    ensures
        ({
            let stop = stop_of(tasks, run, task, status, skipped, verdict);
            let held = status == Status::Running && skipped != 0;
            let refused = status == Status::Verified && verdict is Some && oracle::gates(verdict->0)
                is Reject;
            let known = exists|i: int| 0 <= i < tasks.len() && (#[trigger] tasks[i]).id == task;
            &&& stop is None <==> known && !held && !refused
            &&& held <==> (stop is Some && stop->0 is Skipped)
            &&& refused <==> (stop is Some && stop->0 is Refused)
            &&& !held && !refused && !known <==> (stop is Some && stop->0 is NoTask)
        }),
{
}

/// The files of a task are let go exactly when it can go no further, and never
/// of one that is to do, under way or to be checked.
pub proof fn only_a_finished_task_lets_go(s: Status)
    ensures
        is_terminal(s) <==> s != Status::Pending && s != Status::Running && s != Status::Done,
{
}

/// What was proved is what a verdict that is allowed says, and nothing where
/// there is no verdict or it is refused.
pub proof fn only_an_allowed_verdict_proves(verdict: Option<OracleView>)
    ensures
        verdict is None ==> proved_by(verdict) is None,
        verdict is Some && oracle::gates(verdict->0) is Reject ==> proved_by(verdict) is None,
        verdict is Some && oracle::gates(verdict->0) is Allow ==> proved_by(verdict)
            == oracle::gates(verdict->0)->Allow_0,
{
}

/// A task is worked on where its worktree is, and in the current directory where
/// it has none or the run does not have it.
pub proof fn a_task_runs_in_its_worktree(
    tasks: Seq<TaskView>,
    task: Seq<char>,
    cwd: Seq<char>,
    dir: Seq<char>,
    i: int,
)
    requires
        dir_of(tasks, task, cwd, dir),
    ensures
        0 <= i < tasks.len() && tasks[i].id == task && (forall|k: int|
            0 <= k < i ==> (#[trigger] tasks[k]).id != task) ==> (tasks[i].worktree is Some ==> dir
            == tasks[i].worktree->0) && (tasks[i].worktree is None ==> dir == cwd),
        (forall|k: int| 0 <= k < tasks.len() ==> (#[trigger] tasks[k]).id != task) ==> dir == cwd,
{
    if 0 <= i < tasks.len() && tasks[i].id == task && (forall|k: int|
        0 <= k < i ==> (#[trigger] tasks[k]).id != task) {
        assert(state::first_called(tasks, task, i));
    }
}

/// Freeing tasks changes those that are named and no other: each is pending
/// again, without worktree, branch or time, and keeps the rest. Freeing them
/// twice is freeing them once.
pub proof fn freeing_changes_the_named_tasks_alone(
    tasks: Seq<TaskView>,
    ids: Seq<Seq<char>>,
    i: int,
)
    requires
        0 <= i < tasks.len(),
    ensures
        after_freeing(tasks, ids).len() == tasks.len(),
        !ids.contains(tasks[i].id) ==> after_freeing(tasks, ids)[i] == tasks[i],
        (exists|k: int| 0 <= k < i && (#[trigger] tasks[k]).id == tasks[i].id) ==> after_freeing(
            tasks,
            ids,
        )[i] == tasks[i],
        ids.contains(tasks[i].id) && (forall|k: int|
            0 <= k < i ==> (#[trigger] tasks[k]).id != tasks[i].id) ==> {
            let after = after_freeing(tasks, ids)[i];
            &&& after.id == tasks[i].id
            &&& after.status == Status::Pending
            &&& after.worktree is None
            &&& after.branch is None
            &&& after.updated_at is None
            &&& after.branch_sha == tasks[i].branch_sha
            &&& after.model == tasks[i].model
            &&& after.cost_usd_bits == tasks[i].cost_usd_bits
            &&& after.fp_oracle_valid == tasks[i].fp_oracle_valid
            &&& after.findings == tasks[i].findings
        },
        after_freeing(after_freeing(tasks, ids), ids) == after_freeing(tasks, ids),
{
    let after = after_freeing(tasks, ids);
    assert forall|j: int| 0 <= j < tasks.len() implies (#[trigger] after[j]).id == tasks[j].id by {}
    if ids.contains(tasks[i].id) && (forall|k: int|
        0 <= k < i ==> (#[trigger] tasks[k]).id != tasks[i].id) {
        let k = choose|k: int| 0 <= k < ids.len() && ids[k] == tasks[i].id;
        assert(state::first_called(tasks, ids[k], i));
    }
    assert forall|j: int| 0 <= j < tasks.len() implies #[trigger] after_freeing(after, ids)[j]
        == after[j] by {
        if is_named(tasks, ids, j) {
        } else if is_named(after, ids, j) {
            let k = choose|k: int|
                0 <= k < ids.len() && state::first_called(after, #[trigger] ids[k], j);
            assert(after[j].id == ids[k]);
            assert forall|m: int| 0 <= m < j implies (#[trigger] tasks[m]).id != ids[k] by {
                assert(after[m].id == tasks[m].id);
            }
            assert(state::first_called(tasks, ids[k], j));
        }
    }
    assert(after_freeing(after, ids) =~= after);
}

/// A task that is asked for by name is freed exactly where the run has it and it
/// is running or failed, and then it alone; without a name the stuck ones are
/// freed, where that was asked for, and nothing is freed otherwise.
pub proof fn only_a_running_or_failed_task_is_abandoned(
    tasks: Seq<TaskView>,
    run: Seq<char>,
    task: Option<Seq<char>>,
    all_stuck: bool,
    stuck: Seq<Seq<char>>,
    r: Result<Seq<Seq<char>>, Seq<char>>,
    i: int,
)
    requires
        to_free(tasks, run, task, all_stuck, stuck, r),
    ensures
        task is Some && 0 <= i < tasks.len() && tasks[i].id == task->0 && (forall|k: int|
            0 <= k < i ==> (#[trigger] tasks[k]).id != task->0) ==> (r is Ok <==> (tasks[i].status
            == Status::Running || tasks[i].status == Status::Failed)),
        task is Some && r is Ok && (exists|k: int|
            0 <= k < tasks.len() && (#[trigger] tasks[k]).id == task->0) ==> r->Ok_0 == seq![
            task->0,
        ],
        task is Some && (forall|k: int|
            0 <= k < tasks.len() ==> (#[trigger] tasks[k]).id != task->0) ==> r is Err,
        task is None && all_stuck ==> r is Ok && r->Ok_0 == stuck,
        task is None && !all_stuck ==> r is Err,
{
    if task is Some {
        let id = task->0;
        if 0 <= i < tasks.len() && tasks[i].id == id && (forall|k: int|
            0 <= k < i ==> (#[trigger] tasks[k]).id != id) {
            assert(state::first_called(tasks, id, i));
        }
        if exists|k: int| 0 <= k < tasks.len() && (#[trigger] tasks[k]).id == id {
            let k = choose|k: int| 0 <= k < tasks.len() && (#[trigger] tasks[k]).id == id;
            lemma_some_first(tasks, id, k);
        }
    }
}

proof fn lemma_some_first(tasks: Seq<TaskView>, id: Seq<char>, k: int)
    requires
        0 <= k < tasks.len(),
        tasks[k].id == id,
    ensures
        exists|i: int| #[trigger] state::first_called(tasks, id, i),
    decreases k,
{
    if exists|m: int| 0 <= m < k && (#[trigger] tasks[m]).id == id {
        let m = choose|m: int| 0 <= m < k && (#[trigger] tasks[m]).id == id;
        lemma_some_first(tasks, id, m);
    } else {
        assert(state::first_called(tasks, id, k));
    }
}

/// A task that is called off is cancelled at that time, without worktree or
/// branch, and keeps the rest.
pub proof fn a_cancelled_task_keeps_its_record(t: TaskView, now: i64)
    ensures
        ({
            let after = called_off(t, now);
            &&& after.id == t.id
            &&& after.status == Status::Cancelled
            &&& after.worktree is None
            &&& after.branch is None
            &&& after.updated_at == Some(now)
            &&& after.branch_sha == t.branch_sha
            &&& after.model == t.model
            &&& after.cost_usd_bits == t.cost_usd_bits
            &&& after.fp_oracle_valid == t.fp_oracle_valid
            &&& after.findings == t.findings
        }),
{
}

/// What is left to do is told by status, in the order of the run: what is
/// pending or running is to be worked on, what failed is to be repaired, what is
/// done is to be checked, and the rest needs nothing.
pub proof fn every_task_is_told_under_its_need(tasks: Seq<TaskView>, plan: Seq<model::Task>)
    ensures
        needing(tasks, plan, Need::Work) == tasks.filter(
            |t: TaskView| t.status == Status::Pending || t.status == Status::Running,
        ).map_values(|t: TaskView| resume_entry(t, plan)),
        needing(tasks, plan, Need::Repair) == tasks.filter(
            |t: TaskView| t.status == Status::Failed,
        ).map_values(|t: TaskView| resume_entry(t, plan)),
        needing(tasks, plan, Need::Check) == tasks.filter(
            |t: TaskView| t.status == Status::Done,
        ).map_values(|t: TaskView| resume_entry(t, plan)),
        needing(tasks, plan, Need::Nothing) == tasks.filter(
            |t: TaskView| t.status == Status::Verified || t.status == Status::Cancelled,
        ).map_values(|t: TaskView| resume_entry(t, plan)),
    decreases tasks.len(),
{
    reveal(Seq::filter);
    let entry = |t: TaskView| resume_entry(t, plan);
    if tasks.len() > 0 {
        let before = tasks.drop_last();
        let t = tasks.last();
        every_task_is_told_under_its_need(before, plan);
        let work = |t: TaskView| t.status == Status::Pending || t.status == Status::Running;
        let repair = |t: TaskView| t.status == Status::Failed;
        let check = |t: TaskView| t.status == Status::Done;
        let rest = |t: TaskView| t.status == Status::Verified || t.status == Status::Cancelled;
        assert(before.filter(work).push(t).map_values(entry) =~= before.filter(work).map_values(
            entry,
        ).push(entry(t)));
        assert(before.filter(repair).push(t).map_values(entry) =~= before.filter(
            repair,
        ).map_values(entry).push(entry(t)));
        assert(before.filter(check).push(t).map_values(entry) =~= before.filter(check).map_values(
            entry,
        ).push(entry(t)));
        assert(before.filter(rest).push(t).map_values(entry) =~= before.filter(rest).map_values(
            entry,
        ).push(entry(t)));
    }
    assert(needing(tasks, plan, Need::Work) =~= tasks.filter(
        |t: TaskView| t.status == Status::Pending || t.status == Status::Running,
    ).map_values(entry));
    assert(needing(tasks, plan, Need::Repair) =~= tasks.filter(
        |t: TaskView| t.status == Status::Failed,
    ).map_values(entry));
    assert(needing(tasks, plan, Need::Check) =~= tasks.filter(
        |t: TaskView| t.status == Status::Done,
    ).map_values(entry));
    assert(needing(tasks, plan, Need::Nothing) =~= tasks.filter(
        |t: TaskView| t.status == Status::Verified || t.status == Status::Cancelled,
    ).map_values(entry));
}

/// What is told of a task is its own name, worktree and branch, and the last
/// task of the plan with that name, if there is one.
pub proof fn a_task_is_told_with_its_plan(t: TaskView, plan: Seq<model::Task>)
    requires
        plan.len() <= usize::MAX,
    ensures
        ({
            let e = resume_entry(t, plan);
            &&& e.id == t.id
            &&& e.worktree == t.worktree
            &&& e.branch == t.branch
            &&& e.status == state::word_for(t.status)
            &&& e.planned is Some ==> e.planned->0 < plan.len() && plan[e.planned->0 as int].id@
                == t.id && forall|k: int|
                e.planned->0 < k < plan.len() ==> (#[trigger] plan[k]).id@ != t.id
            &&& e.planned is None ==> forall|k: int|
                0 <= k < plan.len() ==> (#[trigger] plan[k]).id@ != t.id
        }),
{
    lemma_last_called(plan, t.id, plan.len());
}

proof fn lemma_last_called(plan: Seq<model::Task>, id: Seq<char>, n: nat)
    requires
        n <= plan.len() <= usize::MAX,
    ensures
        last_called(plan, id, n) is Some ==> last_called(plan, id, n)->0 < n && plan[last_called(
            plan,
            id,
            n,
        )->0 as int].id@ == id && forall|k: int|
            last_called(plan, id, n)->0 < k < n ==> (#[trigger] plan[k]).id@ != id,
        last_called(plan, id, n) is None ==> forall|k: int|
            0 <= k < n ==> (#[trigger] plan[k]).id@ != id,
    decreases n,
{
    if n > 0 {
        lemma_last_called(plan, id, (n - 1) as nat);
    }
}

/// A seeded run is named and labelled as it was asked for, has the goal of its
/// plan, is not paused and was never recorded; and nothing is known of its tasks
/// but their names.
pub proof fn a_seeded_run_is_blank(
    plan: Decomposition,
    run_id: Seq<char>,
    label: Option<Seq<char>>,
    i: int,
)
    ensures
        ({
            let run = fresh_run(plan, run_id, label);
            &&& run.run_id == run_id
            &&& run.goal == plan.goal@
            &&& run.terminal_label == label
            &&& !run.paused
            &&& run.recorded_at is None
            &&& 0 <= i < plan.tasks@.len() ==> {
                let t = run.tasks[i];
                &&& t.id == plan.tasks@[i].id@
                &&& t.status == Status::Pending
                &&& t.worktree is None
                &&& t.branch is None
                &&& t.branch_sha is None
                &&& t.updated_at is None
                &&& t.model is None
                &&& t.cost_usd_bits is None
                &&& t.fp_oracle_valid is None
                &&& t.findings is None
            }
        }),
{
}

/// A run is labelled by its terminal where one was named, and by its process
/// otherwise: not where the question failed, nor where the answer is blank or
/// says that there is none.
pub proof fn a_run_without_terminal_is_labelled_by_its_process(
    tty: Option<(bool, Seq<char>)>,
    pid: u32,
)
    ensures
        tty is None ==> label_from(tty, pid) == "pid-"@ + text::dec(pid as nat),
        tty is Some && !(tty->0).0 ==> label_from(tty, pid) == label_from(None, pid),
        tty is Some && text::trim((tty->0).1) == Seq::<char>::empty() ==> label_from(tty, pid)
            == label_from(None, pid),
        tty is Some && text::trim((tty->0).1) == "not a tty"@ ==> label_from(tty, pid)
            == label_from(None, pid),
        tty is Some && (tty->0).0 && text::trim((tty->0).1) != Seq::<char>::empty() && text::trim(
            (tty->0).1,
        ) != "not a tty"@ ==> label_from(tty, pid) == text::trim((tty->0).1),
{
    if tty is Some && text::trim((tty->0).1).len() == 0 {
        assert(text::trim((tty->0).1) =~= Seq::<char>::empty());
    }
}

/// A commit is captured for a task exactly where it has a branch whose tip could
/// be read, trimmed and under the name of the task.
pub proof fn a_readable_branch_is_captured(
    tasks: Seq<TaskView>,
    tips: Seq<Option<String>>,
    n: nat,
    i: int,
)
    requires
        0 <= i < n <= tasks.len(),
        tips.len() == tasks.len(),
    ensures
        tasks[i].branch is Some && tips[i] is Some ==> shas_of(tasks, tips, n).contains(
            (ShaView { task_id: tasks[i].id, sha: text::trim(tips[i]->0@) }),
        ),
        forall|p: int|
            0 <= p < shas_of(tasks, tips, n).len() ==> exists|j: int|
                0 <= j < n && (#[trigger] tasks[j]).branch is Some && tips[j] is Some && (
                #[trigger] shas_of(tasks, tips, n)[p]) == (ShaView {
                    task_id: tasks[j].id,
                    sha: text::trim(tips[j]->0@),
                }),
    decreases n,
{
    let before = shas_of(tasks, tips, (n - 1) as nat);
    let here = shas_of(tasks, tips, n);
    if n > 1 {
        if i < n - 1 {
            a_readable_branch_is_captured(tasks, tips, (n - 1) as nat, i);
        } else {
            a_readable_branch_is_captured(tasks, tips, (n - 1) as nat, 0);
        }
    }
    if tasks[n - 1].branch is Some && tips[n - 1] is Some {
        assert(here.last() == here[here.len() - 1]);
        assert forall|p: int| 0 <= p < before.len() implies here[p] == #[trigger] before[p] by {}
        assert(tasks[n - 1].branch is Some);
    }
    if tasks[i].branch is Some && tips[i] is Some {
        let e = ShaView { task_id: tasks[i].id, sha: text::trim(tips[i]->0@) };
        if i < n - 1 {
            let p = choose|p: int| 0 <= p < before.len() && before[p] == e;
            assert(here[p] == e);
        } else {
            assert(here[here.len() - 1] == e);
        }
    }
    assert forall|p: int| 0 <= p < here.len() implies exists|j: int|
        0 <= j < n && (#[trigger] tasks[j]).branch is Some && tips[j] is Some && (
        #[trigger] here[p]) == (ShaView { task_id: tasks[j].id, sha: text::trim(tips[j]->0@) }) by {
        if p < before.len() {
            assert(here[p] == before[p]);
            let j = choose|j: int|
                0 <= j < n - 1 && (#[trigger] tasks[j]).branch is Some && tips[j] is Some
                    && before[p] == (ShaView {
                    task_id: tasks[j].id,
                    sha: text::trim(tips[j]->0@),
                });
            assert(tasks[j].branch is Some);
        } else {
            assert(tasks[n - 1].branch is Some);
        }
    }
}

/// A worktree is reset exactly where the task has one and a commit was captured
/// under its name, to that commit: the last one captured.
pub proof fn a_worktree_is_reset_to_its_own_commit(tasks: Seq<TaskView>, shas: Seq<ShaView>)
    ensures
        resets_for(tasks, shas) == tasks.filter(
            |t: TaskView| t.worktree is Some && sha_for(shas, t.id) is Some,
        ).map_values(
            |t: TaskView|
                ResetView {
                    task_id: t.id,
                    worktree: t.worktree->0,
                    sha: sha_for(shas, t.id)->0,
                },
        ),
        forall|id: Seq<char>|
            (#[trigger] sha_for(shas, id)) is Some ==> shas.contains(
                (ShaView { task_id: id, sha: sha_for(shas, id)->0 }),
            ),
        forall|id: Seq<char>, k: int|
            0 <= k < shas.len() && #[trigger] sha_for(shas, id) is None ==> (
            #[trigger] shas[k]).task_id != id,
        shas.len() > 0 ==> sha_for(shas, shas.last().task_id) == Some(shas.last().sha),
    decreases tasks.len(),
{
    reveal(Seq::filter);
    let has = |t: TaskView| t.worktree is Some && sha_for(shas, t.id) is Some;
    let to = |t: TaskView|
        ResetView { task_id: t.id, worktree: t.worktree->0, sha: sha_for(shas, t.id)->0 };
    if tasks.len() > 0 {
        let before = tasks.drop_last();
        let t = tasks.last();
        a_worktree_is_reset_to_its_own_commit(before, shas);
        assert(before.filter(has).push(t).map_values(to) =~= before.filter(has).map_values(to).push(
            to(t),
        ));
    }
    assert(resets_for(tasks, shas) =~= tasks.filter(has).map_values(to));
    assert forall|id: Seq<char>| (#[trigger] sha_for(shas, id)) is Some implies shas.contains(
        (ShaView { task_id: id, sha: sha_for(shas, id)->0 }),
    ) by {
        lemma_sha_for(shas, id);
    }
    assert forall|id: Seq<char>, k: int|
        0 <= k < shas.len() && #[trigger] sha_for(shas, id) is None implies (
    #[trigger] shas[k]).task_id != id by {
        lemma_sha_for(shas, id);
    }
}

proof fn lemma_sha_for(shas: Seq<ShaView>, id: Seq<char>)
    ensures
        sha_for(shas, id) is Some ==> exists|k: int|
            0 <= k < shas.len() && #[trigger] shas[k] == (ShaView {
                task_id: id,
                sha: sha_for(shas, id)->0,
            }),
        sha_for(shas, id) is None ==> forall|k: int|
            0 <= k < shas.len() ==> (#[trigger] shas[k]).task_id != id,
    decreases shas.len(),
{
    if shas.len() > 0 {
        let before = shas.drop_last();
        lemma_sha_for(before, id);
        assert(shas[shas.len() - 1] == shas.last());
        if shas.last().task_id != id {
            if sha_for(shas, id) is Some {
                let e = ShaView { task_id: id, sha: sha_for(shas, id)->0 };
                let k = choose|k: int| 0 <= k < before.len() && #[trigger] before[k] == e;
                assert(shas[k] == e);
            } else {
                assert forall|k: int| 0 <= k < shas.len() implies (#[trigger] shas[k]).task_id
                    != id by {
                    if k < before.len() {
                        assert(before[k] == shas[k]);
                    }
                }
            }
        } else {
            assert(shas[shas.len() - 1] == (ShaView { task_id: id, sha: shas.last().sha }));
        }
    }
}

/// A message about a task names it, and the run where it says which.
pub proof fn a_message_names_its_task(task: Seq<char>, run: Seq<char>, was: Status)
    ensures
        text::holds_text(no_task_text(task, run), task),
        text::holds_text(no_task_text(task, run), run),
        text::holds_text(gone_text(task, run), task),
        text::holds_text(gone_text(task, run), run),
        text::holds_text(cancel_text(task, was), task),
{
    let q = "'"@;
    let none = no_task_text(task, run);
    text::a_text_holds_its_parts("no task '"@, task, "' in run '"@ + run + q, task);
    assert(none =~= "no task '"@ + task + ("' in run '"@ + run + q));
    text::a_text_holds_its_parts("no task '"@ + task + "' in run '"@, run, q, run);
    let gone = gone_text(task, run);
    text::a_text_holds_its_parts("task '"@, task, "' not found in run '"@ + run + q, task);
    assert(gone =~= "task '"@ + task + ("' not found in run '"@ + run + q));
    text::a_text_holds_its_parts("task '"@ + task + "' not found in run '"@, run, q, run);
    match was {
        Status::Cancelled => {
            text::a_text_holds_its_parts("task '"@, task, "' is already cancelled"@, task);
        },
        Status::Running => {
            text::a_text_holds_its_parts(
                "cancelled task '"@,
                task,
                "' (was running — in-flight worker may still complete; stop it manually if needed)"@,
                task,
            );
        },
        _ => {
            let end = "' (was "@ + status_name(was) + ")"@;
            text::a_text_holds_its_parts("cancelled task '"@, task, end, task);
            assert(cancel_text(task, was) =~= "cancelled task '"@ + task + end);
        },
    }
}

/// Every status has a word of its own.
pub proof fn statuses_are_worded_apart(a: Status, b: Status)
    ensures
        status_name(a) == status_name(b) <==> a == b,
        state::word_for(a) == state::word_for(b) <==> a == b,
{
    reveal_strlit("Pending");
    reveal_strlit("Running");
    reveal_strlit("Done");
    reveal_strlit("Verified");
    reveal_strlit("Failed");
    reveal_strlit("Cancelled");
    reveal_strlit("pending");
    reveal_strlit("running");
    reveal_strlit("done");
    reveal_strlit("verified");
    reveal_strlit("failed");
    reveal_strlit("cancelled");
    assert("Pending"@[0] == 'P' && "Running"@[0] == 'R' && "Done"@[0] == 'D');
    assert("Verified"@[0] == 'V' && "Failed"@[0] == 'F' && "Cancelled"@[0] == 'C');
    assert("pending"@[0] == 'p' && "running"@[0] == 'r' && "done"@[0] == 'd');
    assert("verified"@[0] == 'v' && "failed"@[0] == 'f' && "cancelled"@[0] == 'c');
}

/// A run that nothing stands in the way of is told so in one line; otherwise
/// every reason is told, each in a line of its own and in its order.
pub proof fn every_reason_is_told(run: Seq<char>, reasons: Seq<Seq<char>>, i: int)
    ensures
        gate_text(run, reasons).len() == 1 + reasons.len(),
        0 <= i < reasons.len() ==> text::holds_text(gate_text(run, reasons)[1 + i], reasons[i]),
        reasons.len() == 0 ==> text::holds_text(gate_text(run, reasons)[0], run),
        reasons.len() > 0 ==> text::holds_text(
            gate_text(run, reasons)[0],
            text::dec(reasons.len()),
        ),
{
    if 0 <= i < reasons.len() {
        text::a_text_holds_its_parts("  - "@, reasons[i], Seq::empty(), reasons[i]);
        assert("  - "@ + reasons[i] + Seq::empty() =~= "  - "@ + reasons[i]);
    }
    if reasons.len() == 0 {
        text::a_text_holds_its_parts("gate PASS: run '"@, run, "' complete"@, run);
    } else {
        text::a_text_holds_its_parts(
            "gate FAIL ("@,
            text::dec(reasons.len()),
            " reason(s)):"@,
            text::dec(reasons.len()),
        );
    }
}

/// A change is told with its task, its reason and the status that it leads to.
pub proof fn a_change_is_told_whole(c: Change)
    ensures
        text::holds_text(change_text(c), c.task_id@),
        text::holds_text(change_text(c), c.reason@),
        text::holds_text(change_text(c), status_name(c.new_status)),
        text::holds_text(change_text(c), status_name(c.old_status)),
{
    let whole = change_text(c);
    let id = c.task_id@;
    let why = c.reason@;
    let was = status_name(c.old_status);
    let now = status_name(c.new_status);
    if c.old_status == c.new_status {
        let a = " (status unchanged: "@;
        text::a_text_holds_its_parts("  ["@, id, "]  "@ + why + a + was + ")"@, id);
        assert(whole =~= "  ["@ + id + ("]  "@ + why + a + was + ")"@));
        text::a_text_holds_its_parts("  ["@ + id + "]  "@, why, a + was + ")"@, why);
        assert(whole =~= ("  ["@ + id + "]  "@) + why + (a + was + ")"@));
        text::a_text_holds_its_parts("  ["@ + id + "]  "@ + why + a, was, ")"@, was);
    } else {
        let a = " → "@;
        let b = "  ("@;
        text::a_text_holds_its_parts("  ["@, id, "]  "@ + was + a + now + b + why + ")"@, id);
        assert(whole =~= "  ["@ + id + ("]  "@ + was + a + now + b + why + ")"@));
        text::a_text_holds_its_parts("  ["@ + id + "]  "@, was, a + now + b + why + ")"@, was);
        assert(whole =~= ("  ["@ + id + "]  "@) + was + (a + now + b + why + ")"@));
        text::a_text_holds_its_parts("  ["@ + id + "]  "@ + was + a, now, b + why + ")"@, now);
        assert(whole =~= ("  ["@ + id + "]  "@ + was + a) + now + (b + why + ")"@));
        text::a_text_holds_its_parts("  ["@ + id + "]  "@ + was + a + now + b, why, ")"@, why);
    }
}

/// The files of a task are those that its first entry in the plan touches, and
/// none where the plan does not have it or there is no plan.
pub proof fn the_files_of_a_task_are_planned(
    plan: Option<&Decomposition>,
    task: Seq<char>,
    files: Seq<Seq<char>>,
    i: int,
)
    requires
        files_of(plan, task, files),
    ensures
        plan is None ==> files.len() == 0,
        plan is Some && (forall|k: int|
            0 <= k < plan->0.tasks@.len() ==> (#[trigger] plan->0.tasks@[k]).id@ != task)
            ==> files.len() == 0,
        plan is Some && 0 <= i < plan->0.tasks@.len() && plan->0.tasks@[i].id@ == task && (forall|
            k: int,
        |
            0 <= k < i ==> (#[trigger] plan->0.tasks@[k]).id@ != task) ==> files.len()
            == plan->0.tasks@[i].touched_files@.len() && forall|k: int|
            0 <= k < files.len() ==> #[trigger] files[k]
                == plan->0.tasks@[i].touched_files@[k]@,
{
    if plan is Some && 0 <= i < plan->0.tasks@.len() && plan->0.tasks@[i].id@ == task && (forall|
        k: int,
    |
        0 <= k < i ==> (#[trigger] plan->0.tasks@[k]).id@ != task) {
        assert(model::is_task(plan->0.tasks@, task, i));
    }
}

/// The oracle is asked with what the plan says of the task, in the directory of
/// the task.
pub proof fn an_oracle_is_asked_as_planned(
    plan: Decomposition,
    i: int,
    tasks: Seq<TaskView>,
    task: Seq<char>,
    cwd: Seq<char>,
    call: OracleCall,
)
    requires
        asks_about(plan, i, tasks, task, cwd, call),
    ensures
        call.requires_oracle == model::needs_oracle(text::opt(plan.tasks@[i].kind)),
        call.reproduction_tests is Some <==> plan.tasks@[i].reproduction_tests is Some,
        call.reproduction_tests is Some ==> call.reproduction_tests->0@
            == plan.tasks@[i].reproduction_tests->0@,
        dir_of(tasks, task, cwd, call.run_dir@),
{
}

/// What was freed is named, all of it, and its number told.
pub proof fn what_was_freed_is_named(ids: Seq<Seq<char>>)
    ensures
        ids.len() == 0 ==> abandon_text(ids) == "nothing to abandon"@,
        ids.len() > 0 ==> text::holds_text(abandon_text(ids), text::dec(ids.len()))
            && text::holds_text(abandon_text(ids), text::joined(ids, ", "@)),
{
    if ids.len() > 0 {
        let n = text::dec(ids.len());
        let all = text::joined(ids, ", "@);
        let whole = abandon_text(ids);
        text::a_text_holds_its_parts("abandoned "@, n, " task(s): "@ + all, n);
        assert(whole =~= "abandoned "@ + n + (" task(s): "@ + all));
        text::a_text_holds_its_parts("abandoned "@ + n + " task(s): "@, all, Seq::empty(), all);
        assert(whole =~= ("abandoned "@ + n + " task(s): "@) + all + Seq::empty());
    }
}

/// A run is listed with its name, its goal and its label; one that is paused is
/// marked, and no other is.
pub proof fn a_run_is_listed_whole(run: RunView, done: nat, total: nat)
    ensures
        text::holds_text(run_line_text(run, done, total), run.run_id),
        text::holds_text(run_line_text(run, done, total), run.goal),
        run.terminal_label is Some ==> text::holds_text(
            run_line_text(run, done, total),
            run.terminal_label->0,
        ),
        run.paused ==> text::holds_text(run_line_text(run, done, total), " [paused]"@),
        !run.paused && run.terminal_label is None ==> run_line_text(run, done, total).len()
            == run.run_id.len() + text::dec(done).len() + text::dec(total).len() + run.goal.len()
            + 3,
{
    let line = run_line_text(run, done, total);
    let mark = if run.paused {
        " [paused]"@
    } else {
        ""@
    };
    let label = match run.terminal_label {
        Some(l) => " @"@ + l,
        None => ""@,
    };
    let mid = "\t"@ + text::dec(done) + "/"@ + text::dec(total) + "\t"@;
    reveal_strlit("");
    reveal_strlit("\t");
    reveal_strlit("/");
    text::a_text_holds_its_parts(
        Seq::empty(),
        run.run_id,
        mid + run.goal + mark + label,
        run.run_id,
    );
    assert(line =~= Seq::empty() + run.run_id + (mid + run.goal + mark + label));
    text::a_text_holds_its_parts(run.run_id + mid, run.goal, mark + label, run.goal);
    assert(line =~= (run.run_id + mid) + run.goal + (mark + label));
    text::a_text_holds_its_parts(run.run_id + mid + run.goal, mark, label, mark);
    assert(line =~= (run.run_id + mid + run.goal) + mark + label);
    match run.terminal_label {
        Some(l) => {
            text::a_text_holds_its_parts(
                run.run_id + mid + run.goal + mark + " @"@,
                l,
                Seq::empty(),
                l,
            );
            assert(line =~= (run.run_id + mid + run.goal + mark + " @"@) + l + Seq::empty());
        },
        None => {},
    }
}

} // verus!
