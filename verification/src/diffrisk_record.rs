//! What is recorded of the risk of a finished task's diff.

use vstd::prelude::*;

use crate::gate_exec::Risk;
use crate::text;
use crate::text::{blank, owned, raised};

verus! {

/// The rule under which a risky diff is recorded.
pub const DIFFRISK_RULE_ID: &'static str = "diffrisk-public-api";

/// The paths that are sensitive in this repository.
pub open spec fn repo_globs(assistant: Seq<char>) -> Seq<Seq<char>> {
    seq![
        "**/hooks/**"@,
        "**/."@ + assistant + "-plugin/**"@,
        "**/skills/**"@,
        "**/agents/**"@,
        "**/"@ + text::ascii_upper(assistant) + ".md"@,
    ]
}

/// The patterns of the paths that are sensitive in this repository, on top of
/// those that are sensitive everywhere: the surface of the plugins of
/// `assistant`, and the file with the standing orders that it reads.
pub fn repo_sensitive_globs(assistant: &str) -> (r: Vec<String>)
    ensures
        text::texts(r@) == repo_globs(assistant@),
{
    let mut r: Vec<String> = Vec::new();
    r.push(owned("**/hooks/**"));
    let mut plugins = owned("**/.");
    plugins.push_str(assistant);
    plugins.push_str("-plugin/**");
    r.push(plugins);
    r.push(owned("**/skills/**"));
    r.push(owned("**/agents/**"));
    let mut orders = owned("**/");
    let name = raised(assistant);
    orders.push_str(name.as_str());
    orders.push_str(".md");
    r.push(orders);
    assert(text::texts(r@) =~= repo_globs(assistant@));
    r
}

/// What git is asked to compare, one after another until it answers: what the
/// branch added since it left `base`, the difference to `base`, and what is not
/// committed.
pub fn diff_attempts(base: &str) -> (r: Vec<String>)
    ensures
        text::texts(r@) == seq![base@ + "...HEAD"@, base@, "HEAD"@],
{
    let mut range = owned(base);
    range.push_str("...HEAD");
    let mut r: Vec<String> = Vec::new();
    r.push(range);
    r.push(owned(base));
    r.push(owned("HEAD"));
    assert(text::texts(r@) =~= seq![base@ + "...HEAD"@, base@, "HEAD"@]);
    r
}

/// The first of several attempts that came to something.
pub open spec fn first_answer(attempts: Seq<Option<String>>) -> Option<Seq<char>>
    decreases attempts.len(),
{
    if attempts.len() == 0 {
        None
    } else if attempts[0] is Some {
        Some(attempts[0]->0@)
    } else {
        first_answer(attempts.skip(1))
    }
}

/// The diff of a worktree: what the first attempt that git answered gave, where
/// there is a worktree and the diff is not blank.
pub open spec fn diff_of(exists: bool, attempts: Seq<Option<String>>) -> Option<Seq<char>> {
    if !exists {
        None
    } else {
        match first_answer(attempts) {
            Some(d) => if text::trim(d).len() == 0 {
                None
            } else {
                Some(d)
            },
            None => None,
        }
    }
}

/// The diff of a worktree, given whether it exists and what git answered to each
/// of [`diff_attempts`] in turn.
pub fn worktree_diff(exists: bool, attempts: &Vec<Option<String>>) -> (r: Option<String>)
    ensures
        text::opt(r) == diff_of(exists, attempts@),
{
    if !exists {
        return None;
    }
    let mut i: usize = 0;
    assert(attempts@.skip(0) =~= attempts@);
    while i < attempts.len()
        invariant
            i <= attempts@.len(),
            exists,
            first_answer(attempts@) == first_answer(attempts@.skip(i as int)),
        decreases attempts@.len() - i,
    {
        assert(attempts@.skip(i as int)[0] == attempts@[i as int]);
        assert(attempts@.skip(i as int).skip(1) =~= attempts@.skip(i as int + 1));
        match &attempts[i] {
            Some(d) => {
                return if blank(d.as_str()) {
                    None
                } else {
                    Some(d.clone())
                };
            },
            None => {},
        }
        i += 1;
    }
    None
}

/// What is recorded of a risky diff.
#[derive(Debug, PartialEq, Eq)]
pub struct DiffViolation {
    pub rule_id: &'static str,
    /// The run and the task.
    pub task_key: String,
    pub detail: String,
}

/// What is recorded of a risky diff of a task.
pub open spec fn is_record_of(v: DiffViolation, run_id: Seq<char>, task_id: Seq<char>) -> bool {
    &&& v.rule_id@ == "diffrisk-public-api"@
    &&& v.task_key@ == run_id + "/"@ + task_id
    &&& v.detail@ == "post-execution diff-risk: public-API change on a sensitive path (task '"@
        + task_id + "', run '"@ + run_id + "')"@
}

/// Something is recorded exactly where the risk is high.
pub open spec fn recorded_for(
    risk: Risk,
    run_id: Seq<char>,
    task_id: Seq<char>,
    r: Option<DiffViolation>,
) -> bool {
    match r {
        Some(v) => risk == Risk::High && is_record_of(v, run_id, task_id),
        None => risk != Risk::High,
    }
}

/// `classify` may say `risk` of the paths and the diff, given the paths that are
/// sensitive in this repository.
pub open spec fn may_class<C: Fn(&Vec<String>, &str, &Vec<String>) -> Risk>(
    classify: C,
    paths: &Vec<String>,
    diff: &str,
    assistant: Seq<char>,
    risk: Risk,
) -> bool {
    exists|globs: &Vec<String>| #[trigger]
        call_ensures(classify, (paths, diff, globs), risk) && text::texts(globs@) == repo_globs(
            assistant,
        )
}

/// What to record of the diff of a finished task that touched `paths`. Without a
/// worktree or a diff there is nothing to record; otherwise `classify` is asked
/// about the paths and the diff, with the paths that are sensitive in this
/// repository, and a high risk is recorded.
pub fn record_post_execution_diff_risk<C: Fn(&Vec<String>, &str, &Vec<String>) -> Risk>(
    worktree: Option<&str>,
    diff: Option<&str>,
    paths: &Vec<String>,
    assistant: &str,
    classify: &C,
    run_id: &str,
    task_id: &str,
) -> (r: Option<DiffViolation>)
    requires
        forall|p: &Vec<String>, d: &str, g: &Vec<String>| call_requires(*classify, (p, d, g)),
    ensures
        worktree is None || diff is None ==> r is None,
        worktree is Some && diff is Some ==> exists|risk: Risk|
            may_class(*classify, paths, diff->0, assistant@, risk) && #[trigger] recorded_for(
                risk,
                run_id@,
                task_id@,
                r,
            ),
{
    if worktree.is_none() {
        return None;
    }
    let diff = match diff {
        Some(d) => d,
        None => return None,
    };
    let globs = repo_sensitive_globs(assistant);
    let risk = classify(paths, diff, &globs);
    assert(may_class(*classify, paths, diff, assistant@, risk));
    if !matches!(risk, Risk::High) {
        assert(recorded_for(risk, run_id@, task_id@, None));
        return None;
    }
    let mut task_key = owned(run_id);
    task_key.push_str("/");
    task_key.push_str(task_id);
    let mut detail = owned(
        "post-execution diff-risk: public-API change on a sensitive path (task '",
    );
    detail.push_str(task_id);
    detail.push_str("', run '");
    detail.push_str(run_id);
    detail.push_str("')");
    let r = Some(DiffViolation { rule_id: DIFFRISK_RULE_ID, task_key, detail });
    assert(recorded_for(risk, run_id@, task_id@, r));
    r
}

/// The first attempt that answered is the answer, and there is none exactly where
/// no attempt answered.
pub proof fn the_first_answer_is_taken(attempts: Seq<Option<String>>)
    ensures
        first_answer(attempts) is None <==> forall|i: int|
            0 <= i < attempts.len() ==> #[trigger] attempts[i] is None,
        first_answer(attempts) is Some ==> exists|i: int|
            0 <= i < attempts.len() && #[trigger] attempts[i] is Some && first_answer(attempts)
                == Some(attempts[i]->0@) && forall|j: int|
                0 <= j < i ==> #[trigger] attempts[j] is None,
    decreases attempts.len(),
{
    if attempts.len() > 0 {
        let rest = attempts.skip(1);
        the_first_answer_is_taken(rest);
        assert(forall|i: int| 0 <= i < rest.len() ==> #[trigger] rest[i] == attempts[i + 1]);
        if attempts[0] is None {
            if first_answer(rest) is Some {
                let i = choose|i: int|
                    0 <= i < rest.len() && #[trigger] rest[i] is Some && first_answer(rest) == Some(
                        rest[i]->0@,
                    ) && forall|j: int| 0 <= j < i ==> #[trigger] rest[j] is None;
                assert(attempts[i + 1] == rest[i]);
                assert forall|j: int| 0 <= j < i + 1 implies #[trigger] attempts[j] is None by {
                    if j > 0 {
                        assert(rest[j - 1] == attempts[j]);
                    }
                }
            } else {
                assert forall|i: int| 0 <= i < attempts.len() implies #[trigger] attempts[i]
                    is None by {
                    if i > 0 {
                        assert(rest[i - 1] == attempts[i]);
                    }
                }
            }
        }
    }
}

/// There is a change to look at exactly where the worktree is there and what was
/// answered says something; and it is looked at as it was answered.
pub proof fn a_blank_answer_is_no_change(there: bool, attempts: Seq<Option<String>>)
    ensures
        !there ==> diff_of(there, attempts) is None,
        first_answer(attempts) is None ==> diff_of(there, attempts) is None,
        there && first_answer(attempts) is Some ==> (diff_of(there, attempts) is Some
            <==> text::trim(first_answer(attempts)->0).len() > 0),
        diff_of(there, attempts) is Some ==> diff_of(there, attempts) == first_answer(attempts),
{
}

/// A violation is recorded exactly of a high risk, under the run and the task.
pub proof fn only_a_high_risk_is_recorded(
    risk: Risk,
    run_id: Seq<char>,
    task_id: Seq<char>,
    r: Option<DiffViolation>,
)
    requires
        recorded_for(risk, run_id, task_id, r),
    ensures
        r is Some <==> risk == Risk::High,
        r is Some ==> r->0.rule_id@ == "diffrisk-public-api"@ && r->0.task_key@ == run_id + "/"@
            + task_id,
{
}

/// The paths that are always looked at are those of the hooks, the plugin, the
/// skills, the agents and the instructions of the assistant.
pub proof fn the_assistants_own_files_are_sensitive(assistant: Seq<char>)
    ensures
        repo_globs(assistant).contains("**/hooks/**"@),
        repo_globs(assistant).contains("**/skills/**"@),
        repo_globs(assistant).contains("**/agents/**"@),
        repo_globs(assistant).contains("**/."@ + assistant + "-plugin/**"@),
        repo_globs(assistant).contains("**/"@ + text::ascii_upper(assistant) + ".md"@),
        repo_globs(assistant).len() == 5,
{
    let g = repo_globs(assistant);
    assert(g[0] == "**/hooks/**"@);
    assert(g[1] == "**/."@ + assistant + "-plugin/**"@);
    assert(g[2] == "**/skills/**"@);
    assert(g[3] == "**/agents/**"@);
    assert(g[4] == "**/"@ + text::ascii_upper(assistant) + ".md"@);
}

/// The class of a change is what is answered for it with the paths that are
/// always looked at: where every such answer is one, so is the class.
pub proof fn a_class_is_answered_with_the_sensitive_paths<
    C: Fn(&Vec<String>, &str, &Vec<String>) -> Risk,
>(
    classify: C,
    paths: &Vec<String>,
    diff: &str,
    assistant: Seq<char>,
    risk: Risk,
    one: Risk,
)
    requires
        may_class(classify, paths, diff, assistant, risk),
        forall|globs: &Vec<String>, answer: Risk| #[trigger]
            call_ensures(classify, (paths, diff, globs), answer) && text::texts(globs@)
                == repo_globs(assistant) ==> answer == one,
    ensures
        risk == one,
{
}

} // verus!
