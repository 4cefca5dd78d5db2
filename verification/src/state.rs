//! The state of a run and of its tasks.

use vstd::prelude::*;

use crate::text;
use crate::text::{copy_opt, same};

verus! {

/// How far a task has come.
#[derive(Debug, Clone, Copy, PartialEq, Eq, Structural)]
pub enum Status {
    Pending,
    Running,
    Done,
    Verified,
    Failed,
    Cancelled,
}

/// The word for a status.
pub open spec fn word_for(s: Status) -> Seq<char> {
    match s {
        Status::Pending => "pending"@,
        Status::Running => "running"@,
        Status::Done => "done"@,
        Status::Verified => "verified"@,
        Status::Failed => "failed"@,
        Status::Cancelled => "cancelled"@,
    }
}

/// The word for a status, in small letters.
pub fn status_word(s: Status) -> (r: &'static str)
    ensures
        r@ == word_for(s),
{
    match s {
        Status::Pending => "pending",
        Status::Running => "running",
        Status::Done => "done",
        Status::Verified => "verified",
        Status::Failed => "failed",
        Status::Cancelled => "cancelled",
    }
}

/// One task of a run.
#[derive(Debug)]
pub struct TaskState {
    pub id: String,
    pub status: Status,
    pub worktree: Option<String>,
    pub branch: Option<String>,
    /// The commit that the branch stood at when it was assigned.
    pub branch_sha: Option<String>,
    /// When the task last changed, in seconds.
    pub updated_at: Option<i64>,
    /// The model that did the work.
    pub model: Option<String>,
    /// What the work cost in dollars, as the bits of a double.
    pub cost_usd_bits: Option<u64>,
    pub fp_oracle_valid: Option<bool>,
    /// What the verifier had to say.
    pub findings: Option<String>,
}

pub struct TaskView {
    pub id: Seq<char>,
    pub status: Status,
    pub worktree: Option<Seq<char>>,
    pub branch: Option<Seq<char>>,
    pub branch_sha: Option<Seq<char>>,
    pub updated_at: Option<i64>,
    pub model: Option<Seq<char>>,
    pub cost_usd_bits: Option<u64>,
    pub fp_oracle_valid: Option<bool>,
    pub findings: Option<Seq<char>>,
}

impl View for TaskState {
    type V = TaskView;

    open spec fn view(&self) -> TaskView {
        TaskView {
            id: self.id@,
            status: self.status,
            worktree: text::opt(self.worktree),
            branch: text::opt(self.branch),
            branch_sha: text::opt(self.branch_sha),
            updated_at: self.updated_at,
            model: text::opt(self.model),
            cost_usd_bits: self.cost_usd_bits,
            fp_oracle_valid: self.fp_oracle_valid,
            findings: text::opt(self.findings),
        }
    }
}

/// A task of which nothing is known but its name.
pub open spec fn fresh_task(id: Seq<char>) -> TaskView {
    TaskView {
        id,
        status: Status::Pending,
        worktree: None,
        branch: None,
        branch_sha: None,
        updated_at: None,
        model: None,
        cost_usd_bits: None,
        fp_oracle_valid: None,
        findings: None,
    }
}

impl Default for TaskState {
    fn default() -> (r: TaskState)
        ensures
            r@ == fresh_task(Seq::empty()),
    {
        TaskState {
            id: String::new(),
            status: Status::Pending,
            worktree: None,
            branch: None,
            branch_sha: None,
            updated_at: None,
            model: None,
            cost_usd_bits: None,
            fp_oracle_valid: None,
            findings: None,
        }
    }
}

impl Clone for TaskState {
    fn clone(&self) -> (r: TaskState)
        ensures
            r@ == self@,
    {
        TaskState {
            id: self.id.clone(),
            status: self.status,
            worktree: copy_opt(&self.worktree),
            branch: copy_opt(&self.branch),
            branch_sha: copy_opt(&self.branch_sha),
            updated_at: self.updated_at,
            model: copy_opt(&self.model),
            cost_usd_bits: self.cost_usd_bits,
            fp_oracle_valid: self.fp_oracle_valid,
            findings: copy_opt(&self.findings),
        }
    }
}

/// A run and its tasks.
#[derive(Debug)]
pub struct RunState {
    pub run_id: String,
    pub goal: String,
    pub tasks: Vec<TaskState>,
    /// No new work is handed out.
    pub paused: bool,
    pub terminal_label: Option<String>,
    /// When the outcome was recorded, in seconds.
    pub recorded_at: Option<i64>,
}

pub struct RunView {
    pub run_id: Seq<char>,
    pub goal: Seq<char>,
    pub tasks: Seq<TaskView>,
    pub paused: bool,
    pub terminal_label: Option<Seq<char>>,
    pub recorded_at: Option<i64>,
}

/// The tasks of a run, one by one.
pub open spec fn task_views(tasks: Seq<TaskState>) -> Seq<TaskView> {
    tasks.map_values(|t: TaskState| t@)
}

impl View for RunState {
    type V = RunView;

    open spec fn view(&self) -> RunView {
        RunView {
            run_id: self.run_id@,
            goal: self.goal@,
            tasks: task_views(self.tasks@),
            paused: self.paused,
            terminal_label: text::opt(self.terminal_label),
            recorded_at: self.recorded_at,
        }
    }
}

/// `i` is the first task called `id`.
pub open spec fn first_called(tasks: Seq<TaskView>, id: Seq<char>, i: int) -> bool {
    &&& 0 <= i < tasks.len()
    &&& tasks[i].id == id
    &&& forall|k: int| 0 <= k < i ==> (#[trigger] tasks[k]).id != id
}

/// No task is called `id`.
pub open spec fn none_called(tasks: Seq<TaskView>, id: Seq<char>) -> bool {
    forall|k: int| 0 <= k < tasks.len() ==> (#[trigger] tasks[k]).id != id
}

/// There is only one first task of a name.
pub proof fn lemma_first_is_one(tasks: Seq<TaskView>, id: Seq<char>, i: int, j: int)
    requires
        first_called(tasks, id, i),
        first_called(tasks, id, j),
    ensures
        i == j,
{
    if i < j {
        assert(tasks[i].id != id);
    } else if j < i {
        assert(tasks[j].id != id);
    }
}

/// Where the first task called `id` stands.
pub fn find_task(tasks: &Vec<TaskState>, id: &str) -> (r: Option<usize>)
    ensures
        match r {
            Some(i) => first_called(task_views(tasks@), id@, i as int),
            None => none_called(task_views(tasks@), id@),
        },
{
    let mut i: usize = 0;
    while i < tasks.len()
        invariant
            i <= tasks@.len(),
            forall|k: int| 0 <= k < i ==> (#[trigger] task_views(tasks@)[k]).id != id@,
        decreases tasks@.len() - i,
    {
        assert(task_views(tasks@)[i as int] == tasks@[i as int]@);
        if same(&tasks[i].id, id) {
            return Some(i);
        }
        i += 1;
    }
    None
}

} // verus!
