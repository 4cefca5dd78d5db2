//! The signals that tell whether the run behind a claim is getting anywhere.
//!
//! Every signal is about the run itself: what happens elsewhere in the
//! repository says nothing of it. A signal that could not be read is not one that
//! stands still.

use vstd::prelude::*;

use crate::circuit;
use crate::circuit::max_updated_at;
use crate::claim::Claim;
use crate::state::{RunState, TaskView};
use crate::text;
use crate::text::{dec_signed, is_before, owned};
use crate::verdict::Determination;

verus! {

/// A task that works in a worktree.
#[derive(Debug, PartialEq, Eq)]
pub struct TaskTree {
    pub task_id: String,
    pub worktree: String,
}

pub struct TreeView {
    pub task_id: Seq<char>,
    pub worktree: Seq<char>,
}

impl View for TaskTree {
    type V = TreeView;

    open spec fn view(&self) -> TreeView {
        TreeView { task_id: self.task_id@, worktree: self.worktree@ }
    }
}

/// Tasks with their worktrees, one by one.
pub open spec fn tree_views(list: Seq<TaskTree>) -> Seq<TreeView> {
    list.map_values(|t: TaskTree| t@)
}

/// `x` put behind everything that does not come after it.
pub open spec fn put(sorted: Seq<TreeView>, x: TreeView) -> Seq<TreeView>
    decreases sorted.len(),
{
    if sorted.len() == 0 || !text::precedes(x.task_id, sorted.last().task_id) {
        sorted.push(x)
    } else {
        put(sorted.drop_last(), x).push(sorted.last())
    }
}

/// The worktrees of a run's tasks, in the order of the task ids. Tasks with the
/// same id keep their order.
pub open spec fn trees_in(tasks: Seq<TaskView>) -> Seq<TreeView>
    decreases tasks.len(),
{
    if tasks.len() == 0 {
        Seq::empty()
    } else {
        let before = trees_in(tasks.drop_last());
        match tasks.last().worktree {
            Some(w) => put(before, TreeView { task_id: tasks.last().id, worktree: w }),
            None => before,
        }
    }
}

proof fn lemma_put_is_insert(sorted: Seq<TreeView>, x: TreeView, k: int)
    requires
        0 <= k <= sorted.len(),
        k > 0 ==> !text::precedes(x.task_id, sorted[k - 1].task_id),
        forall|i: int| k <= i < sorted.len() ==> text::precedes(
            x.task_id,
            (#[trigger] sorted[i]).task_id,
        ),
    ensures
        put(sorted, x) == sorted.insert(k, x),
    decreases sorted.len(),
{
    if k == sorted.len() {
        assert(sorted.insert(k, x) =~= sorted.push(x));
    } else {
        assert(text::precedes(x.task_id, sorted[sorted.len() - 1].task_id));
        let init = sorted.drop_last();
        assert forall|i: int| k <= i < init.len() implies text::precedes(
            x.task_id,
            (#[trigger] init[i]).task_id,
        ) by {
            assert(init[i] == sorted[i]);
        }
        lemma_put_is_insert(init, x, k);
        assert(init.insert(k, x).push(sorted.last()) =~= sorted.insert(k, x));
    }
}

/// The worktrees of a run's tasks, in the order of the task ids.
pub fn head_plan(run: &RunState) -> (r: Vec<TaskTree>)
    ensures
        tree_views(r@) == trees_in(run@.tasks),
{
    let ghost views = run@.tasks;
    let mut out: Vec<TaskTree> = Vec::new();
    assert(tree_views(out@) =~= trees_in(views.take(0)));
    let mut i: usize = 0;
    while i < run.tasks.len()
        invariant
            views == run@.tasks,
            i <= run.tasks@.len(),
            tree_views(out@) == trees_in(views.take(i as int)),
        decreases run.tasks@.len() - i,
    {
        let ghost upto = views.take(i as int + 1);
        assert(upto.drop_last() =~= views.take(i as int));
        assert(views[i as int] == run.tasks@[i as int]@);
        assert(upto.last() == views[i as int]);
        match &run.tasks[i].worktree {
            Some(w) => {
                let x = TaskTree { task_id: run.tasks[i].id.clone(), worktree: w.clone() };
                let ghost sorted = tree_views(out@);
                let ghost added = x@;
                let mut k: usize = out.len();
                while k > 0 && is_before(x.task_id.as_str(), out[k - 1].task_id.as_str())
                    invariant
                        sorted == tree_views(out@),
                        added == x@,
                        k <= out@.len(),
                        forall|j: int| k <= j < out@.len() ==> text::precedes(
                            added.task_id,
                            (#[trigger] sorted[j]).task_id,
                        ),
                    decreases k,
                {
                    assert(sorted[k - 1] == out@[k - 1]@);
                    k -= 1;
                }
                proof {
                    if k > 0 {
                        assert(sorted[k - 1] == out@[k - 1]@);
                    }
                    lemma_put_is_insert(sorted, added, k as int);
                }
                out.insert(k, x);
                assert(tree_views(out@) =~= sorted.insert(k as int, added));
            },
            None => {},
        }
        i += 1;
    }
    assert(views.take(i as int) =~= views);
    out
}

/// The head of a task's worktree.
#[derive(Debug, PartialEq, Eq)]
pub struct TaskHead {
    pub task_id: String,
    pub head: Vec<u8>,
}

pub struct HeadView {
    pub task_id: Seq<char>,
    pub head: Seq<u8>,
}

impl View for TaskHead {
    type V = HeadView;

    open spec fn view(&self) -> HeadView {
        HeadView { task_id: self.task_id@, head: self.head@ }
    }
}

/// What was found out about heads.
pub open spec fn heads_found(d: Determination<Vec<TaskHead>>) -> Result<Seq<HeadView>, Seq<char>> {
    match d {
        Determination::Known(list) => Ok(list@.map_values(|h: TaskHead| h@)),
        Determination::Undetermined(why) => Err(why@),
    }
}

/// The first `n` heads, each with the task that it belongs to. One that could
/// not be read leaves the whole signal open.
pub open spec fn paired(
    trees: Seq<TreeView>,
    heads: Seq<Determination<Vec<u8>>>,
    n: nat,
) -> Result<Seq<HeadView>, Seq<char>>
    decreases n,
{
    if n == 0 {
        Ok(Seq::empty())
    } else {
        match paired(trees, heads, (n - 1) as nat) {
            Err(why) => Err(why),
            Ok(list) => match heads[n - 1] {
                Determination::Undetermined(why) => Err(why@),
                Determination::Known(head) => Ok(
                    list.push(HeadView { task_id: trees[n - 1].task_id, head: head@ }),
                ),
            },
        }
    }
}

proof fn lemma_pairing_fails(
    trees: Seq<TreeView>,
    heads: Seq<Determination<Vec<u8>>>,
    n: nat,
    all: nat,
)
    requires
        n <= all,
        paired(trees, heads, n) is Err,
    ensures
        paired(trees, heads, all) == paired(trees, heads, n),
    decreases all,
{
    if n < all {
        lemma_pairing_fails(trees, heads, n, (all - 1) as nat);
    }
}

/// The head signal of a run: a run without worktrees has none.
pub open spec fn head_signal(
    run_id: Seq<char>,
    trees: Seq<TreeView>,
    heads: Seq<Determination<Vec<u8>>>,
) -> Result<Seq<HeadView>, Seq<char>> {
    if trees.len() == 0 {
        Err(
            "run "@ + run_id
                + " records no task worktree — no run-scoped head signal exists for it"@,
        )
    } else {
        paired(trees, heads, trees.len())
    }
}

fn copy_bytes(bytes: &Vec<u8>) -> (r: Vec<u8>)
    ensures
        r@ == bytes@,
{
    let mut out: Vec<u8> = Vec::new();
    let mut i: usize = 0;
    while i < bytes.len()
        invariant
            i <= bytes@.len(),
            out@ == bytes@.take(i as int),
        decreases bytes@.len() - i,
    {
        out.push(bytes[i]);
        assert(bytes@.take(i as int + 1) =~= bytes@.take(i as int).push(bytes@[i as int]));
        i += 1;
    }
    assert(bytes@.take(i as int) =~= bytes@);
    out
}

/// The head signal of a run, given the head of each worktree of its plan, in the
/// order of the plan.
pub fn run_worktree_head_signal(
    run_id: &str,
    plan: &Vec<TaskTree>,
    heads: &Vec<Determination<Vec<u8>>>,
) -> (r: Determination<Vec<TaskHead>>)
    requires
        heads@.len() == plan@.len(),
    ensures
        heads_found(r) == head_signal(run_id@, tree_views(plan@), heads@),
{
    let ghost trees = tree_views(plan@);
    assert(trees.len() == plan@.len());
    if plan.len() == 0 {
        let mut why = owned("run ");
        why.push_str(run_id);
        why.push_str(" records no task worktree — no run-scoped head signal exists for it");
        return Determination::Undetermined(why);
    }
    let mut out: Vec<TaskHead> = Vec::new();
    assert(out@.map_values(|h: TaskHead| h@) =~= Seq::empty());
    let mut i: usize = 0;
    while i < plan.len()
        invariant
            trees == tree_views(plan@),
            trees.len() == plan@.len(),
            plan@.len() > 0,
            heads@.len() == plan@.len(),
            i <= plan@.len(),
            paired(trees, heads@, i as nat) == Ok::<Seq<HeadView>, Seq<char>>(
                out@.map_values(|h: TaskHead| h@),
            ),
        decreases plan@.len() - i,
    {
        assert(trees[i as int] == plan@[i as int]@);
        match &heads[i] {
            Determination::Known(head) => {
                let h = TaskHead { task_id: plan[i].task_id.clone(), head: copy_bytes(head) };
                let ghost before = out@.map_values(|h: TaskHead| h@);
                let ghost added = h@;
                out.push(h);
                assert(out@.map_values(|h: TaskHead| h@) =~= before.push(added));
            },
            Determination::Undetermined(why) => {
                proof {
                    assert(paired(trees, heads@, (i + 1) as nat) is Err);
                    lemma_pairing_fails(trees, heads@, (i + 1) as nat, trees.len());
                }
                return Determination::Undetermined(why.clone());
            },
        }
        i += 1;
    }
    Determination::Known(out)
}

/// `s` says when a run last changed: the latest change of any task, and 0 where
/// none says.
pub open spec fn says_last_change(tasks: Seq<TaskView>, s: Seq<char>) -> bool {
    &&& circuit::undated(tasks) ==> s == text::dec(0)
    &&& forall|at: i64| #[trigger]
        circuit::is_latest(tasks, at) ==> s == text::signed_dec(at as int)
}

proof fn lemma_latest_is_one(tasks: Seq<TaskView>, a: i64, b: i64)
    requires
        circuit::is_latest(tasks, a),
        circuit::is_latest(tasks, b),
    ensures
        a == b,
{
    let i = choose|i: int| 0 <= i < tasks.len() && #[trigger] tasks[i].updated_at == Some(a);
    let j = choose|j: int| 0 <= j < tasks.len() && #[trigger] tasks[j].updated_at == Some(b);
    assert(tasks[i].updated_at is Some);
    assert(tasks[j].updated_at is Some);
}

/// When a run last changed, as a signal. A file that is merely written again
/// does not move it.
pub fn run_task_progress_signal(run: &RunState) -> (r: String)
    ensures
        says_last_change(run@.tasks, r@),
{
    match max_updated_at(run) {
        Some(at) => {
            proof {
                assert forall|b: i64| #[trigger] circuit::is_latest(run@.tasks, b) implies b
                    == at by {
                    lemma_latest_is_one(run@.tasks, at, b);
                }
                let i = choose|i: int|
                    0 <= i < run@.tasks.len() && #[trigger] run@.tasks[i].updated_at == Some(at);
                assert(!circuit::undated(run@.tasks));
            }
            dec_signed(at)
        },
        None => {
            proof {
                assert forall|b: i64| !#[trigger] circuit::is_latest(run@.tasks, b) by {
                    if circuit::is_latest(run@.tasks, b) {
                        let i = choose|i: int|
                            0 <= i < run@.tasks.len() && #[trigger] run@.tasks[i].updated_at
                                == Some(b);
                        assert(run@.tasks[i].updated_at is None);
                    }
                }
            }
            dec_signed(0)
        },
    }
}

/// Everything that tells whether the run behind a claim is getting anywhere.
#[derive(Debug)]
pub struct ClaimSignals {
    /// Under which name the signals are remembered.
    pub key: String,
    pub heads: Determination<Vec<TaskHead>>,
    pub transcript: Determination<Vec<u8>>,
    pub tasks: Determination<String>,
}

/// The signals of a claim. A run that could not be read gives neither of its two
/// signals; a claim without a session has no transcript. `heads` are those of
/// the worktrees of the run's plan, and `transcript` is that of the session.
pub fn claim_progress(
    c: &Claim,
    run: &Result<RunState, String>,
    heads: &Vec<Determination<Vec<u8>>>,
    transcript: Determination<Vec<u8>>,
) -> (r: ClaimSignals)
    requires
        run matches Ok(rs) ==> heads@.len() == trees_in(rs@.tasks).len(),
    ensures
        r.key@ == "claim:"@ + c.run_id@,
        match *run {
            Ok(rs) => {
                &&& heads_found(r.heads) == head_signal(rs@.run_id, trees_in(rs@.tasks), heads@)
                &&& r.tasks is Known && says_last_change(rs@.tasks, r.tasks->Known_0@)
            },
            Err(e) => {
                let why = "run state for "@ + c.run_id@ + " unreadable: "@ + e@;
                &&& r.heads is Undetermined && r.heads->Undetermined_0@ == why
                &&& r.tasks is Undetermined && r.tasks->Undetermined_0@ == why
            },
        },
        match c.session_id {
            Some(_) => r.transcript == transcript,
            None => r.transcript is Undetermined && r.transcript->Undetermined_0@
                == "claim has no owning session id — transcript progress unreadable"@,
        },
{
    let mut key = owned("claim:");
    key.push_str(c.run_id.as_str());
    let transcript = match &c.session_id {
        Some(_) => transcript,
        None => Determination::undetermined(
            "claim has no owning session id — transcript progress unreadable",
        ),
    };
    match run {
        Ok(rs) => {
            let plan = head_plan(rs);
            assert(tree_views(plan@).len() == plan@.len());
            ClaimSignals {
                key,
                heads: run_worktree_head_signal(rs.run_id.as_str(), &plan, heads),
                transcript,
                tasks: Determination::Known(run_task_progress_signal(rs)),
            }
        },
        Err(e) => {
            let mut why = owned("run state for ");
            why.push_str(c.run_id.as_str());
            why.push_str(" unreadable: ");
            why.push_str(e.as_str());
            ClaimSignals {
                key,
                heads: Determination::Undetermined(why.clone()),
                transcript,
                tasks: Determination::Undetermined(why),
            }
        },
    }
}

// ---- laws ----------------------------------------------------------------

/// In order of the task ids, and no two the same.
pub open spec fn strictly_sorted(s: Seq<TreeView>) -> bool {
    forall|i: int, j: int|
        0 <= i < j < s.len() ==> text::precedes(
            (#[trigger] s[i]).task_id,
            (#[trigger] s[j]).task_id,
        )
}

/// No two tasks have the same id.
pub open spec fn distinct_ids(tasks: Seq<TaskView>) -> bool {
    forall|i: int, j: int|
        0 <= i < j < tasks.len() ==> (#[trigger] tasks[i]).id != (#[trigger] tasks[j]).id
}

/// Task `t` works in the worktree `x`.
pub open spec fn works_in(t: TaskView, x: TreeView) -> bool {
    t.id == x.task_id && t.worktree == Some(x.worktree)
}

proof fn lemma_put_keeps_order(s: Seq<TreeView>, x: TreeView)
    requires
        strictly_sorted(s),
        forall|i: int| 0 <= i < s.len() ==> (#[trigger] s[i]).task_id != x.task_id,
    ensures
        strictly_sorted(put(s, x)),
        forall|y: TreeView| #[trigger] put(s, x).contains(y) <==> s.contains(y) || y == x,
        put(s, x).len() == s.len() + 1,
    decreases s.len(),
{
    let after = put(s, x);
    if s.len() == 0 || !text::precedes(x.task_id, s.last().task_id) {
        if s.len() > 0 {
            text::lemma_precedes_total(x.task_id, s.last().task_id);
            assert forall|i: int| 0 <= i < s.len() implies text::precedes(
                (#[trigger] s[i]).task_id,
                x.task_id,
            ) by {
                if i < s.len() - 1 {
                    text::lemma_precedes_transitive(
                        s[i].task_id,
                        s[s.len() - 1].task_id,
                        x.task_id,
                    );
                }
            }
        }
        assert forall|y: TreeView| #[trigger] after.contains(y) <==> s.contains(y) || y == x by {
            if s.contains(y) {
                let i = choose|i: int| 0 <= i < s.len() && s[i] == y;
                assert(after[i] == y);
            }
            if y == x {
                assert(after[s.len() as int] == y);
            }
        }
    } else {
        let init = s.drop_last();
        let last = s.last();
        lemma_put_keeps_order(init, x);
        let inner = put(init, x);
        assert forall|i: int| 0 <= i < inner.len() implies text::precedes(
            (#[trigger] inner[i]).task_id,
            last.task_id,
        ) by {
            assert(inner.contains(inner[i]));
            if inner[i] != x {
                assert(init.contains(inner[i]));
                let k = choose|k: int| 0 <= k < init.len() && init[k] == inner[i];
                assert(s[k] == init[k]);
                assert(text::precedes(s[k].task_id, s[s.len() - 1].task_id));
            }
        }
        assert forall|y: TreeView| #[trigger] after.contains(y) <==> s.contains(y) || y == x by {
            if s.contains(y) {
                let i = choose|i: int| 0 <= i < s.len() && s[i] == y;
                if i < init.len() {
                    assert(init[i] == y);
                    assert(inner.contains(y));
                    let k = choose|k: int| 0 <= k < inner.len() && inner[k] == y;
                    assert(after[k] == y);
                } else {
                    assert(after[inner.len() as int] == y);
                }
            }
            if y == x {
                assert(inner.contains(x));
                let k = choose|k: int| 0 <= k < inner.len() && inner[k] == x;
                assert(after[k] == y);
            }
            if after.contains(y) {
                let k = choose|k: int| 0 <= k < after.len() && after[k] == y;
                if k < inner.len() {
                    assert(inner[k] == y);
                    assert(inner.contains(y));
                    if y != x {
                        let i = choose|i: int| 0 <= i < init.len() && init[i] == y;
                        assert(s[i] == y);
                    }
                } else {
                    assert(s[s.len() - 1] == y);
                }
            }
        }
    }
}

/// The plan of heads is in the order of the task ids and holds exactly the
/// worktrees that the tasks record, where no two tasks have the same id.
pub proof fn plan_is_sorted_and_complete(tasks: Seq<TaskView>)
    requires
        distinct_ids(tasks),
    ensures
        strictly_sorted(trees_in(tasks)),
        forall|x: TreeView| #[trigger]
            trees_in(tasks).contains(x) <==> exists|i: int|
                0 <= i < tasks.len() && works_in(#[trigger] tasks[i], x),
    decreases tasks.len(),
{
    if tasks.len() > 0 {
        let init = tasks.drop_last();
        let last = tasks.last();
        assert(distinct_ids(init));
        plan_is_sorted_and_complete(init);
        let before = trees_in(init);
        let after = trees_in(tasks);
        if last.worktree is Some {
            let x = TreeView { task_id: last.id, worktree: last.worktree->0 };
            assert forall|i: int| 0 <= i < before.len() implies (#[trigger] before[i]).task_id
                != x.task_id by {
                assert(before.contains(before[i]));
                let k = choose|k: int|
                    0 <= k < init.len() && works_in(#[trigger] init[k], before[i]);
                assert(tasks[k] == init[k]);
                assert(tasks[k].id != tasks[tasks.len() - 1].id);
            }
            lemma_put_keeps_order(before, x);
        }
        assert forall|x: TreeView| #[trigger] after.contains(x) <==> exists|i: int|
            0 <= i < tasks.len() && works_in(#[trigger] tasks[i], x) by {
            if before.contains(x) {
                let k = choose|k: int| 0 <= k < init.len() && works_in(#[trigger] init[k], x);
                assert(tasks[k] == init[k]);
            }
            if after.contains(x) && !before.contains(x) {
                assert(works_in(tasks[tasks.len() - 1], x));
            }
            if exists|i: int| 0 <= i < tasks.len() && works_in(#[trigger] tasks[i], x) {
                let i = choose|i: int| 0 <= i < tasks.len() && works_in(#[trigger] tasks[i], x);
                if i < init.len() {
                    assert(works_in(init[i], x));
                    assert(before.contains(x));
                }
            }
        }
    }
}

proof fn lemma_sorted_is_unique(a: Seq<TreeView>, b: Seq<TreeView>)
    requires
        strictly_sorted(a),
        strictly_sorted(b),
        forall|x: TreeView| #[trigger] a.contains(x) <==> b.contains(x),
    ensures
        a == b,
    decreases a.len(),
{
    if a.len() == 0 {
        if b.len() > 0 {
            assert(b.contains(b[0]));
            assert(a.contains(b[0]));
        }
        assert(a =~= b);
    } else {
        assert(a.contains(a[a.len() - 1]));
        assert(b.contains(a.last()));
        let i = choose|i: int| 0 <= i < b.len() && b[i] == a.last();
        assert(b.contains(b[b.len() - 1]));
        assert(a.contains(b.last()));
        let j = choose|j: int| 0 <= j < a.len() && a[j] == b.last();
        if i < b.len() - 1 {
            assert(text::precedes(b[i].task_id, b[b.len() - 1].task_id));
            if j < a.len() - 1 {
                assert(text::precedes(a[j].task_id, a[a.len() - 1].task_id));
                text::lemma_precedes_antisymmetric(b[i].task_id, b[b.len() - 1].task_id);
            } else {
                text::lemma_precedes_irreflexive(a[j].task_id);
            }
        }
        assert(a.last() == b.last());
        let ia = a.drop_last();
        let ib = b.drop_last();
        assert forall|x: TreeView| #[trigger] ia.contains(x) <==> ib.contains(x) by {
            if ia.contains(x) {
                let k = choose|k: int| 0 <= k < ia.len() && ia[k] == x;
                assert(a[k] == x);
                assert(a.contains(x));
                let m = choose|m: int| 0 <= m < b.len() && b[m] == x;
                if m == b.len() - 1 {
                    assert(text::precedes(a[k].task_id, a[a.len() - 1].task_id));
                    text::lemma_precedes_irreflexive(a[k].task_id);
                }
                assert(ib[m] == x);
            }
            if ib.contains(x) {
                let k = choose|k: int| 0 <= k < ib.len() && ib[k] == x;
                assert(b[k] == x);
                assert(b.contains(x));
                assert(a.contains(x));
                let m = choose|m: int| 0 <= m < a.len() && a[m] == x;
                if m == a.len() - 1 {
                    assert(text::precedes(b[k].task_id, b[b.len() - 1].task_id));
                    text::lemma_precedes_irreflexive(b[k].task_id);
                }
                assert(ia[m] == x);
            }
        }
        lemma_sorted_is_unique(ia, ib);
        assert(a =~= ia.push(a.last()));
        assert(b =~= ib.push(b.last()));
    }
}

/// The order in which a run lists its tasks is no input to the plan of heads:
/// two runs with the same tasks have the same plan.
pub proof fn task_order_does_not_matter(a: Seq<TaskView>, b: Seq<TaskView>)
    requires
        distinct_ids(a),
        distinct_ids(b),
        forall|t: TaskView| #[trigger] a.contains(t) <==> b.contains(t),
    ensures
        trees_in(a) == trees_in(b),
{
    plan_is_sorted_and_complete(a);
    plan_is_sorted_and_complete(b);
    assert forall|x: TreeView| #[trigger] trees_in(a).contains(x) <==> trees_in(b).contains(x) by {
        if trees_in(a).contains(x) {
            let i = choose|i: int| 0 <= i < a.len() && works_in(#[trigger] a[i], x);
            assert(a.contains(a[i]));
            assert(b.contains(a[i]));
            let k = choose|k: int| 0 <= k < b.len() && b[k] == a[i];
            assert(works_in(b[k], x));
        }
        if trees_in(b).contains(x) {
            let i = choose|i: int| 0 <= i < b.len() && works_in(#[trigger] b[i], x);
            assert(b.contains(b[i]));
            assert(a.contains(b[i]));
            let k = choose|k: int| 0 <= k < a.len() && a[k] == b[i];
            assert(works_in(a[k], x));
        }
    }
    lemma_sorted_is_unique(trees_in(a), trees_in(b));
}

/// A head belongs to its task: signals that are equal name the same tasks and
/// the same heads, in the same order.
pub proof fn heads_are_bound_to_tasks(
    trees: Seq<TreeView>,
    heads: Seq<Determination<Vec<u8>>>,
    n: nat,
)
    requires
        n <= trees.len(),
        paired(trees, heads, n) is Ok,
    ensures
        paired(trees, heads, n)->Ok_0.len() == n,
        forall|i: int|
            0 <= i < n ==> (#[trigger] paired(trees, heads, n)->Ok_0[i]).task_id
                == trees[i].task_id && heads[i] is Known && paired(trees, heads, n)->Ok_0[i].head
                == heads[i]->Known_0@,
    decreases n,
{
    if n > 0 {
        heads_are_bound_to_tasks(trees, heads, (n - 1) as nat);
        let before = paired(trees, heads, (n - 1) as nat)->Ok_0;
        let after = paired(trees, heads, n)->Ok_0;
        assert forall|i: int| 0 <= i < n implies (#[trigger] after[i]).task_id == trees[i].task_id
            && heads[i] is Known && after[i].head == heads[i]->Known_0@ by {
            if i < n - 1 {
                assert(after[i] == before[i]);
            }
        }
    }
}

/// One head that could not be read leaves the whole signal open.
pub proof fn an_unreadable_head_leaves_the_signal_open(
    run_id: Seq<char>,
    trees: Seq<TreeView>,
    heads: Seq<Determination<Vec<u8>>>,
    i: int,
)
    requires
        0 <= i < trees.len(),
        heads[i] is Undetermined,
    ensures
        head_signal(run_id, trees, heads) is Err,
{
    let n = (i + 1) as nat;
    assert(paired(trees, heads, n) is Err);
    lemma_pairing_fails(trees, heads, n, trees.len());
}

/// The signal of a run can be read exactly where it has a worktree and the head
/// of each could be read.
pub proof fn a_signal_takes_every_head(
    run_id: Seq<char>,
    trees: Seq<TreeView>,
    heads: Seq<Determination<Vec<u8>>>,
)
    requires
        heads.len() == trees.len(),
    ensures
        head_signal(run_id, trees, heads) is Ok <==> trees.len() > 0 && forall|i: int|
            0 <= i < heads.len() ==> #[trigger] heads[i] is Known,
        head_signal(run_id, trees, heads) is Ok ==> head_signal(run_id, trees, heads)->Ok_0.len()
            == trees.len(),
{
    if trees.len() > 0 {
        if head_signal(run_id, trees, heads) is Ok {
            heads_are_bound_to_tasks(trees, heads, trees.len());
            assert forall|i: int| 0 <= i < heads.len() implies #[trigger] heads[i] is Known by {
                let _ = paired(trees, heads, trees.len())->Ok_0[i];
            }
        }
        if forall|i: int| 0 <= i < heads.len() ==> #[trigger] heads[i] is Known {
            lemma_all_known(trees, heads, trees.len());
        }
    }
}

proof fn lemma_all_known(trees: Seq<TreeView>, heads: Seq<Determination<Vec<u8>>>, n: nat)
    requires
        n <= heads.len(),
        forall|i: int| 0 <= i < heads.len() ==> #[trigger] heads[i] is Known,
    ensures
        paired(trees, heads, n) is Ok,
    decreases n,
{
    if n > 0 {
        lemma_all_known(trees, heads, (n - 1) as nat);
        assert(heads[n - 1] is Known);
    }
}

/// The signal of the tasks is the time of the last change, and zero where no task
/// is dated.
pub proof fn the_task_signal_is_the_last_change(tasks: Seq<TaskView>, s: Seq<char>, i: int)
    requires
        says_last_change(tasks, s),
    ensures
        0 <= i < tasks.len() && tasks[i].updated_at is Some && (forall|k: int|
            0 <= k < tasks.len() && (#[trigger] tasks[k]).updated_at is Some
                ==> tasks[k].updated_at->0 <= tasks[i].updated_at->0) ==> s == text::signed_dec(
            tasks[i].updated_at->0 as int,
        ),
        (forall|k: int| 0 <= k < tasks.len() ==> (#[trigger] tasks[k]).updated_at is None) ==> s
            == seq!['0'],
{
    if 0 <= i < tasks.len() && tasks[i].updated_at is Some && (forall|k: int|
        0 <= k < tasks.len() && (#[trigger] tasks[k]).updated_at is Some ==> tasks[k].updated_at->0
            <= tasks[i].updated_at->0) {
        let at = tasks[i].updated_at->0;
        assert(tasks[i].updated_at == Some(at));
        assert(circuit::is_latest(tasks, at));
    }
    if forall|k: int| 0 <= k < tasks.len() ==> (#[trigger] tasks[k]).updated_at is None {
        assert(circuit::undated(tasks));
        assert(text::dec(0) == seq!['0']);
    }
}

/// Every worktree of a run is looked at, and no more than there are.
pub proof fn every_worktree_is_planned_for(tasks: Seq<TaskView>)
    ensures
        trees_in(tasks).len() == tasks.filter(|t: TaskView| t.worktree is Some).len(),
    decreases tasks.len(),
{
    reveal(Seq::filter);
    if tasks.len() > 0 {
        every_worktree_is_planned_for(tasks.drop_last());
        if tasks.last().worktree is Some {
            lemma_put_adds_one(
                trees_in(tasks.drop_last()),
                TreeView { task_id: tasks.last().id, worktree: tasks.last().worktree->0 },
            );
        }
    }
}

proof fn lemma_put_adds_one(sorted: Seq<TreeView>, x: TreeView)
    ensures
        put(sorted, x).len() == sorted.len() + 1,
    decreases sorted.len(),
{
    if !(sorted.len() == 0 || !text::precedes(x.task_id, sorted.last().task_id)) {
        lemma_put_adds_one(sorted.drop_last(), x);
    }
}

/// What was found of the heads and of the trees is what each says of itself.
pub proof fn heads_and_trees_are_told_as_they_are(
    found: Determination<Vec<TaskHead>>,
    list: Seq<TaskTree>,
    i: int,
)
    ensures
        found is Known <==> heads_found(found) is Ok,
        found is Known ==> heads_found(found)->Ok_0.len() == found->Known_0@.len(),
        found is Known && 0 <= i < found->Known_0@.len() ==> heads_found(found)->Ok_0[i].task_id
            == found->Known_0@[i].task_id@ && heads_found(found)->Ok_0[i].head
            == found->Known_0@[i].head@,
        found is Undetermined ==> heads_found(found)->Err_0 == found->Undetermined_0@,
        tree_views(list).len() == list.len(),
        0 <= i < list.len() ==> tree_views(list)[i].task_id == list[i].task_id@ && tree_views(
            list,
        )[i].worktree == list[i].worktree@,
{
}

} // verus!
