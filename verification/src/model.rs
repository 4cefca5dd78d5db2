//! The plan of a run: its tasks, its schedule, and what a hook is told.

use vstd::prelude::*;

use crate::json::Json;
use crate::text;
use crate::text::{copy_texts, lists, lowered, same, same_str};

verus! {

/// How a task may be executed.
#[derive(Debug, Clone, Copy, PartialEq, Eq, Structural)]
pub enum Class {
    /// Independent: may run beside others.
    Parallel,
    /// Must run alone on the main line.
    Serial,
    /// Waits for an approval and never runs by itself.
    Gated,
    /// A probe that is never merged by itself.
    Experiment,
}

impl Default for Class {
    fn default() -> (r: Class)
        ensures
            r == Class::Parallel,
    {
        Class::Parallel
    }
}

/// A command, and what it means that it passed.
#[derive(Debug, PartialEq, Eq)]
pub struct Check {
    pub cmd: String,
    /// The expected exit code; 0 where none is given.
    pub expect_exit: Option<i64>,
    /// What the output must hold.
    pub expect_substring: Option<String>,
}

/// One unit of work in a plan.
#[derive(Debug)]
pub struct Task {
    pub id: String,
    pub title: String,
    /// The files, or patterns of files, that the task is expected to touch.
    pub touched_files: Vec<String>,
    /// The tasks that must be complete before this one.
    pub deps: Vec<String>,
    pub class: Class,
    pub suggested_model: Option<String>,
    pub done_criteria: Option<String>,
    pub size: Option<String>,
    pub target_symbols: Vec<String>,
    /// A command that reproduces what the task is about.
    pub reproduction_tests: Option<String>,
    pub confidence: Option<String>,
    /// What kind of change the task is.
    pub kind: Option<String>,
    pub checks: Vec<Check>,
    pub expected_trajectory: Option<Json>,
}

impl Default for Task {
    fn default() -> (r: Task)
        ensures
            r.id@ == Seq::<char>::empty(),
            r.title@ == Seq::<char>::empty(),
            r.touched_files@ == Seq::<String>::empty(),
            r.deps@ == Seq::<String>::empty(),
            r.class == Class::Parallel,
            r.suggested_model is None,
            r.done_criteria is None,
            r.size is None,
            r.target_symbols@ == Seq::<String>::empty(),
            r.reproduction_tests is None,
            r.confidence is None,
            r.kind is None,
            r.checks@ == Seq::<Check>::empty(),
            r.expected_trajectory is None,
    {
        Task {
            id: String::new(),
            title: String::new(),
            touched_files: Vec::new(),
            deps: Vec::new(),
            class: Class::Parallel,
            suggested_model: None,
            done_criteria: None,
            size: None,
            target_symbols: Vec::new(),
            reproduction_tests: None,
            confidence: None,
            kind: None,
            checks: Vec::new(),
            expected_trajectory: None,
        }
    }
}

/// A change of this kind has to come with a test that failed before it.
pub open spec fn needs_oracle(kind: Option<Seq<char>>) -> bool {
    match kind {
        Some(k) => text::ascii_lower(k) == "fix"@ || text::ascii_lower(k) == "feature"@,
        None => false,
    }
}

impl Task {
    /// Whether the task is a fix or a feature, in whatever case it says so.
    pub fn requires_fp_oracle(&self) -> (r: bool)
        ensures
            r == needs_oracle(text::opt(self.kind)),
    {
        match &self.kind {
            Some(k) => {
                let word = lowered(k.as_str());
                same_str(word.as_str(), "fix") || same_str(word.as_str(), "feature")
            },
            None => false,
        }
    }
}

/// The whole plan.
#[derive(Debug)]
pub struct Decomposition {
    pub goal: String,
    pub tasks: Vec<Task>,
}

/// `i` is the first task of the plan called `id`.
pub open spec fn is_task(tasks: Seq<Task>, id: Seq<char>, i: int) -> bool {
    &&& 0 <= i < tasks.len()
    &&& tasks[i].id@ == id
    &&& forall|k: int| 0 <= k < i ==> (#[trigger] tasks[k]).id@ != id
}

/// No task of the plan is called `id`.
pub open spec fn no_task(tasks: Seq<Task>, id: Seq<char>) -> bool {
    forall|k: int| 0 <= k < tasks.len() ==> (#[trigger] tasks[k]).id@ != id
}

/// `list` with every text of `more` that it does not hold yet, in order.
pub open spec fn with_new(list: Seq<Seq<char>>, more: Seq<Seq<char>>) -> Seq<Seq<char>>
    decreases more.len(),
{
    if more.len() == 0 {
        list
    } else {
        let before = with_new(list, more.drop_last());
        if before.contains(more.last()) {
            before
        } else {
            before.push(more.last())
        }
    }
}

/// Every file that one of the tasks touches, once, in the order in which it
/// first comes up.
pub open spec fn all_files(tasks: Seq<Task>) -> Seq<Seq<char>>
    decreases tasks.len(),
{
    if tasks.len() == 0 {
        Seq::empty()
    } else {
        with_new(all_files(tasks.drop_last()), text::texts(tasks.last().touched_files@))
    }
}

impl Decomposition {
    /// Where the first task called `id` stands.
    pub fn find(&self, id: &str) -> (r: Option<usize>)
        ensures
            match r {
                Some(i) => is_task(self.tasks@, id@, i as int),
                None => no_task(self.tasks@, id@),
            },
    {
        let mut i: usize = 0;
        while i < self.tasks.len()
            invariant
                i <= self.tasks@.len(),
                forall|k: int| 0 <= k < i ==> (#[trigger] self.tasks@[k]).id@ != id@,
            decreases self.tasks@.len() - i,
        {
            if same(&self.tasks[i].id, id) {
                return Some(i);
            }
            i += 1;
        }
        None
    }
}

/// Every file that the plan touches, without repeats; nothing where there is no
/// plan to read.
pub fn decomposition_files(plan: Option<&Decomposition>) -> (r: Vec<String>)
    ensures
        text::texts(r@) == (match plan {
            Some(p) => all_files(p.tasks@),
            None => Seq::empty(),
        }),
{
    let mut out: Vec<String> = Vec::new();
    assert(text::texts(out@) =~= Seq::empty());
    let plan = match plan {
        Some(p) => p,
        None => return out,
    };
    let ghost tasks = plan.tasks@;
    let mut i: usize = 0;
    while i < plan.tasks.len()
        invariant
            tasks == plan.tasks@,
            i <= tasks.len(),
            text::texts(out@) == all_files(tasks.take(i as int)),
        decreases tasks.len() - i,
    {
        let files = &plan.tasks[i].touched_files;
        let ghost sofar = text::texts(out@);
        let ghost more = text::texts(files@);
        assert(more.take(0) =~= Seq::empty());
        let mut j: usize = 0;
        while j < files.len()
            invariant
                more == text::texts(files@),
                j <= files@.len(),
                text::texts(out@) == with_new(sofar, more.take(j as int)),
            decreases files@.len() - j,
        {
            let ghost upto = more.take(j as int + 1);
            assert(upto.drop_last() =~= more.take(j as int));
            assert(upto.last() == files@[j as int]@);
            if !lists(&out, files[j].as_str()) {
                let ghost before = text::texts(out@);
                out.push(files[j].clone());
                assert(text::texts(out@) =~= before.push(files@[j as int]@));
            }
            j += 1;
        }
        assert(more.take(j as int) =~= more);
        assert(tasks.take(i as int + 1).drop_last() =~= tasks.take(i as int));
        i += 1;
    }
    assert(tasks.take(i as int) =~= tasks);
    out
}

/// The files that the first task called `id` touches; nothing where there is no
/// plan or no such task.
pub fn task_files(plan: Option<&Decomposition>, id: &str) -> (r: Vec<String>)
    ensures
        match plan {
            Some(p) => {
                &&& forall|i: int| #[trigger]
                    is_task(p.tasks@, id@, i) ==> text::texts(r@) == text::texts(
                        p.tasks@[i].touched_files@,
                    )
                &&& no_task(p.tasks@, id@) ==> r@.len() == 0
            },
            None => r@.len() == 0,
        },
{
    match plan {
        Some(p) => match p.find(id) {
            Some(i) => {
                let r = copy_texts(&p.tasks[i].touched_files);
                proof {
                    assert forall|k: int| #[trigger] is_task(p.tasks@, id@, k) implies k == i by {
                        if k < i {
                            assert(p.tasks@[k].id@ != id@);
                        } else if i < k {
                            assert(p.tasks@[i as int].id@ != id@);
                        }
                    }
                }
                r
            },
            None => Vec::new(),
        },
        None => Vec::new(),
    }
}

/// Tasks that may run at the same time.
#[derive(Debug)]
pub struct Batch {
    pub parallel: Vec<String>,
}

/// In which order the tasks of a plan run.
#[derive(Debug)]
pub struct Schedule {
    /// Parallel work, in the order of the dependencies.
    pub batches: Vec<Batch>,
    /// What runs alone on the main line.
    pub serial: Vec<String>,
    /// What waits for an approval.
    pub gated: Vec<String>,
    /// Probes, on a track of their own.
    pub experiment: Vec<String>,
    pub warnings: Vec<String>,
}

impl Default for Schedule {
    fn default() -> (r: Schedule)
        ensures
            r.batches@.len() == 0,
            r.serial@.len() == 0,
            r.gated@.len() == 0,
            r.experiment@.len() == 0,
            r.warnings@.len() == 0,
    {
        Schedule {
            batches: Vec::new(),
            serial: Vec::new(),
            gated: Vec::new(),
            experiment: Vec::new(),
            warnings: Vec::new(),
        }
    }
}

/// What a hook is told. Everything may be missing.
#[derive(Debug)]
pub struct HookInput {
    pub session_id: Option<String>,
    pub transcript_path: Option<String>,
    pub cwd: Option<String>,
    pub hook_event_name: Option<String>,
    pub source: Option<String>,
}

impl Default for HookInput {
    fn default() -> (r: HookInput)
        ensures
            r.session_id is None,
            r.transcript_path is None,
            r.cwd is None,
            r.hook_event_name is None,
            r.source is None,
    {
        HookInput {
            session_id: None,
            transcript_path: None,
            cwd: None,
            hook_event_name: None,
            source: None,
        }
    }
}

// ---- laws ----------------------------------------------------------------

/// A list stays free of repeats when texts are added only where they are new,
/// and it then holds every text that was to be added.
proof fn lemma_with_new(list: Seq<Seq<char>>, more: Seq<Seq<char>>)
    requires
        list.no_duplicates(),
    ensures
        with_new(list, more).no_duplicates(),
        forall|x: Seq<char>| #[trigger]
            with_new(list, more).contains(x) <==> list.contains(x) || more.contains(x),
    decreases more.len(),
{
    if more.len() > 0 {
        lemma_with_new(list, more.drop_last());
        let before = with_new(list, more.drop_last());
        let last = more.last();
        let after = with_new(list, more);
        assert forall|x: Seq<char>| #[trigger] more.contains(x) <==> more.drop_last().contains(x)
            || x == last by {
            if more.contains(x) {
                let i = choose|i: int| 0 <= i < more.len() && more[i] == x;
                if i < more.len() - 1 {
                    assert(more.drop_last()[i] == x);
                }
            }
            if more.drop_last().contains(x) {
                let i = choose|i: int| 0 <= i < more.len() - 1 && more.drop_last()[i] == x;
                assert(more[i] == x);
            }
            if x == last {
                assert(more[more.len() - 1] == x);
            }
        }
        if !before.contains(last) {
            assert forall|x: Seq<char>| #[trigger] after.contains(x) <==> before.contains(x) || x
                == last by {
                if after.contains(x) {
                    let i = choose|i: int| 0 <= i < after.len() && after[i] == x;
                    if i < before.len() {
                        assert(before[i] == x);
                    }
                }
                if before.contains(x) {
                    let i = choose|i: int| 0 <= i < before.len() && before[i] == x;
                    assert(after[i] == x);
                }
                if x == last {
                    assert(after[before.len() as int] == x);
                }
            }
        }
    }
}

/// The files of a plan are exactly those that its tasks touch, each of them once.
pub proof fn files_are_listed_once(tasks: Seq<Task>)
    ensures
        all_files(tasks).no_duplicates(),
        forall|x: Seq<char>| #[trigger]
            all_files(tasks).contains(x) <==> exists|i: int|
                0 <= i < tasks.len() && text::texts(#[trigger] tasks[i].touched_files@).contains(x),
    decreases tasks.len(),
{
    if tasks.len() > 0 {
        let init = tasks.drop_last();
        files_are_listed_once(init);
        lemma_with_new(all_files(init), text::texts(tasks.last().touched_files@));
        assert forall|x: Seq<char>| #[trigger] all_files(tasks).contains(x) <==> exists|i: int|
            0 <= i < tasks.len() && text::texts(#[trigger] tasks[i].touched_files@).contains(x) by {
            if all_files(init).contains(x) {
                let i = choose|i: int|
                    0 <= i < init.len() && text::texts(
                        #[trigger] init[i].touched_files@,
                    ).contains(x);
                assert(tasks[i] == init[i]);
            }
            if exists|i: int|
                0 <= i < tasks.len() && text::texts(#[trigger] tasks[i].touched_files@).contains(
                    x,
                ) {
                let i = choose|i: int|
                    0 <= i < tasks.len() && text::texts(
                        #[trigger] tasks[i].touched_files@,
                    ).contains(x);
                if i < init.len() {
                    assert(init[i] == tasks[i]);
                }
            }
        }
    }
}

/// A task needs an oracle where it is a fix or a feature, in whatever case that
/// is spelt, and nowhere else.
pub proof fn fixes_and_features_need_an_oracle(kind: Seq<char>)
    ensures
        !needs_oracle(None),
        text::ascii_lower(kind) == "fix"@ ==> needs_oracle(Some(kind)),
        text::ascii_lower(kind) == "feature"@ ==> needs_oracle(Some(kind)),
        needs_oracle(Some(kind)) ==> text::ascii_lower(kind) == "fix"@ || text::ascii_lower(kind)
            == "feature"@,
{
}

/// The task of a name is the first that has it, and there is none exactly where
/// no task has it.
pub proof fn the_first_task_of_a_name_is_meant(tasks: Seq<Task>, id: Seq<char>, i: int)
    ensures
        is_task(tasks, id, i) ==> 0 <= i < tasks.len() && tasks[i].id@ == id && !no_task(tasks, id),
        is_task(tasks, id, i) ==> forall|k: int| 0 <= k < i ==> (#[trigger] tasks[k]).id@ != id,
        0 <= i < tasks.len() && tasks[i].id@ == id ==> !no_task(tasks, id),
        (forall|k: int| 0 <= k < tasks.len() ==> (#[trigger] tasks[k]).id@ != id) ==> no_task(
            tasks,
            id,
        ),
{
}

/// One more task adds its files after those that were listed, and moves none.
pub proof fn files_are_listed_in_the_order_of_the_tasks(tasks: Seq<Task>, t: Task)
    ensures
        all_files(tasks).len() <= all_files(tasks.push(t)).len(),
        all_files(tasks.push(t)).take(all_files(tasks).len() as int) == all_files(tasks),
{
    assert(tasks.push(t).drop_last() =~= tasks);
    lemma_with_new_extends(all_files(tasks), text::texts(t.touched_files@));
}

proof fn lemma_with_new_extends(list: Seq<Seq<char>>, more: Seq<Seq<char>>)
    ensures
        list.len() <= with_new(list, more).len(),
        with_new(list, more).take(list.len() as int) == list,
    decreases more.len(),
{
    if more.len() == 0 {
        assert(list.take(list.len() as int) =~= list);
    } else {
        lemma_with_new_extends(list, more.drop_last());
        assert(with_new(list, more).take(list.len() as int) =~= list);
    }
}

} // verus!
