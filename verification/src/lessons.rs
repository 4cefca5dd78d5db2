//! The facts of a finished run, from which a lesson can be written.

use vstd::prelude::*;

use crate::json;
use crate::json::{Json, JsonView};
use crate::state;
use crate::state::{status_word, RunState, TaskView};
use crate::text;
use crate::text::{blank, copy_opt, same_str};

verus! {

/// The facts of one task.
#[derive(Debug)]
pub struct TaskFacts {
    pub id: String,
    pub status: &'static str,
    pub title: Option<String>,
    pub done_criteria: Option<String>,
    pub findings: Option<String>,
}

pub struct TaskFactsView {
    pub id: Seq<char>,
    pub status: Seq<char>,
    pub title: Option<Seq<char>>,
    pub done_criteria: Option<Seq<char>>,
    pub findings: Option<Seq<char>>,
}

impl View for TaskFacts {
    type V = TaskFactsView;

    open spec fn view(&self) -> TaskFactsView {
        TaskFactsView {
            id: self.id@,
            status: self.status@,
            title: text::opt(self.title),
            done_criteria: text::opt(self.done_criteria),
            findings: text::opt(self.findings),
        }
    }
}

/// The facts of a run.
#[derive(Debug)]
pub struct Facts {
    pub run_id: String,
    pub goal: String,
    pub tasks: Vec<TaskFacts>,
    /// What the verifiers had to say, where they said anything.
    pub reasons: Vec<String>,
}

/// The first entry of a list of tasks that is called `id`.
pub open spec fn entry_called(entries: Seq<JsonView>, id: Seq<char>) -> Option<JsonView>
    decreases entries.len(),
{
    if entries.len() == 0 {
        None
    } else if entries[0].text_at("id"@) == Some(id) {
        Some(entries[0])
    } else {
        entry_called(entries.skip(1), id)
    }
}

/// What a plan says of the task called `id`, if there is a plan and it has such
/// a task.
pub open spec fn planned(plan: Option<JsonView>, id: Seq<char>) -> Option<JsonView> {
    match plan {
        Some(doc) => match doc.get("tasks"@) {
            Some(JsonView::Array(entries)) => entry_called(entries, id),
            _ => None,
        },
        None => None,
    }
}

/// A text in an entry.
pub open spec fn told(entry: Option<JsonView>, key: Seq<char>) -> Option<Seq<char>> {
    match entry {
        Some(e) => e.text_at(key),
        None => None,
    }
}

/// The facts of a task: its state, with what the plan says of it.
pub open spec fn task_facts(t: TaskView, plan: Option<JsonView>) -> TaskFactsView {
    TaskFactsView {
        id: t.id,
        status: state::word_for(t.status),
        title: told(planned(plan, t.id), "title"@),
        done_criteria: told(planned(plan, t.id), "done_criteria"@),
        findings: t.findings,
    }
}

/// The findings of the tasks that say anything, in order.
pub open spec fn reasons_in(tasks: Seq<TaskView>) -> Seq<Seq<char>>
    decreases tasks.len(),
{
    if tasks.len() == 0 {
        Seq::empty()
    } else {
        let before = reasons_in(tasks.drop_last());
        match tasks.last().findings {
            Some(s) => if text::trim(s).len() == 0 {
                before
            } else {
                before.push(s)
            },
            None => before,
        }
    }
}

/// The entry of the plan for the task called `id`.
fn entry_for<'a>(plan: &'a Option<Json>, id: &str) -> (r: Option<&'a Json>)
    ensures
        match r {
            Some(j) => planned(json::opt(*plan), id@) == Some(j@),
            None => planned(json::opt(*plan), id@) is None,
        },
{
    let doc = match plan {
        Some(doc) => doc,
        None => return None,
    };
    match doc.get("tasks") {
        Some(Json::Array(entries)) => {
            let ghost all = Json::Array(*entries)@->Array_0;
            let mut i: usize = 0;
            assert(all.skip(0) =~= all);
            while i < entries.len()
                invariant
                    all == Json::Array(*entries)@->Array_0,
                    all.len() == entries@.len(),
                    planned(json::opt(*plan), id@) == entry_called(all, id@),
                    i <= entries@.len(),
                    entry_called(all, id@) == entry_called(all.skip(i as int), id@),
                decreases entries@.len() - i,
            {
                assert(all[i as int] == entries@[i as int]@);
                assert(all.skip(i as int)[0] == all[i as int]);
                assert(all.skip(i as int).skip(1) =~= all.skip(i as int + 1));
                let named = match entries[i].text_at("id") {
                    Some(name) => same_str(name.as_str(), id),
                    None => false,
                };
                if named {
                    return Some(&entries[i]);
                }
                i += 1;
            }
            None
        },
        _ => None,
    }
}

fn text_in(entry: Option<&Json>, key: &str) -> (r: Option<String>)
    ensures
        text::opt(r) == told(
            match entry {
                Some(j) => Some(j@),
                None => None,
            },
            key@,
        ),
{
    match entry {
        Some(e) => match e.text_at(key) {
            Some(s) => Some(s.clone()),
            None => None,
        },
        None => None,
    }
}

/// The facts of a run, given the document of its plan. A run that could not be
/// loaded has none.
pub fn harvest(run: Option<&RunState>, plan: &Option<Json>) -> (r: Option<Facts>)
    ensures
        r is Some <==> run is Some,
        r matches Some(facts) ==> {
            &&& facts.run_id@ == run->0@.run_id
            &&& facts.goal@ == run->0@.goal
            &&& facts.tasks@.map_values(|t: TaskFacts| t@) == run->0@.tasks.map_values(
                |t: TaskView| task_facts(t, json::opt(*plan)),
            )
            &&& text::texts(facts.reasons@) == reasons_in(run->0@.tasks)
        },
{
    let run = match run {
        Some(run) => run,
        None => return None,
    };
    let ghost views = run@.tasks;
    let ghost doc = json::opt(*plan);
    let mut tasks: Vec<TaskFacts> = Vec::new();
    let mut reasons: Vec<String> = Vec::new();
    assert(text::texts(reasons@) =~= reasons_in(views.take(0)));
    let mut i: usize = 0;
    while i < run.tasks.len()
        invariant
            views == run@.tasks,
            doc == json::opt(*plan),
            i <= run.tasks@.len(),
            tasks@.len() == i,
            forall|k: int| 0 <= k < i ==> (#[trigger] tasks@[k])@ == task_facts(views[k], doc),
            text::texts(reasons@) == reasons_in(views.take(i as int)),
        decreases run.tasks@.len() - i,
    {
        let ghost upto = views.take(i as int + 1);
        assert(upto.drop_last() =~= views.take(i as int));
        assert(views[i as int] == run.tasks@[i as int]@);
        assert(upto.last() == views[i as int]);
        let t = &run.tasks[i];
        let entry = entry_for(plan, t.id.as_str());
        match &t.findings {
            Some(s) => {
                if !blank(s.as_str()) {
                    let ghost before = text::texts(reasons@);
                    reasons.push(s.clone());
                    assert(text::texts(reasons@) =~= before.push(s@));
                }
            },
            None => {},
        }
        tasks.push(
            TaskFacts {
                id: t.id.clone(),
                status: status_word(t.status),
                title: text_in(entry, "title"),
                done_criteria: text_in(entry, "done_criteria"),
                findings: copy_opt(&t.findings),
            },
        );
        i += 1;
    }
    assert(views.take(i as int) =~= views);
    assert(tasks@.map_values(|t: TaskFacts| t@) =~= views.map_values(
        |t: TaskView| task_facts(t, doc),
    ));
    Some(Facts { run_id: run.run_id.clone(), goal: run.goal.clone(), tasks, reasons })
}

/// The facts of a run, given the text of its plan, if that could be loaded. A
/// text that is no JSON counts as no plan.
pub fn harvest_text(run: Option<&RunState>, plan: Option<&str>) -> (r: Option<Facts>)
    ensures
        r is Some <==> run is Some,
        r matches Some(facts) ==> {
            let doc = match text::opt_str(plan) {
                Some(s) => json::parsed(s),
                None => None,
            };
            &&& facts.run_id@ == run->0@.run_id
            &&& facts.goal@ == run->0@.goal
            &&& facts.tasks@.map_values(|t: TaskFacts| t@) == run->0@.tasks.map_values(
                |t: TaskView| task_facts(t, doc),
            )
            &&& text::texts(facts.reasons@) == reasons_in(run->0@.tasks)
        },
{
    let document = match plan {
        Some(s) => json::parse(s),
        None => None,
    };
    harvest(run, &document)
}

// ---- laws ----------------------------------------------------------------

/// No reason is made up: each is what the verifier of some task said, and none
/// is blank.
pub proof fn reasons_are_findings(tasks: Seq<TaskView>, r: Seq<char>)
    requires
        reasons_in(tasks).contains(r),
    ensures
        text::trim(r).len() > 0,
        exists|i: int| 0 <= i < tasks.len() && (#[trigger] tasks[i]).findings == Some(r),
    decreases tasks.len(),
{
    if tasks.len() > 0 {
        let init = tasks.drop_last();
        let before = reasons_in(init);
        let k = choose|k: int| 0 <= k < reasons_in(tasks).len() && reasons_in(tasks)[k] == r;
        if k < before.len() {
            assert(before[k] == r);
            reasons_are_findings(init, r);
            let i = choose|i: int|
                0 <= i < init.len() && (#[trigger] init[i]).findings == Some(r);
            assert(tasks[i] == init[i]);
        } else {
            assert(tasks[tasks.len() - 1].findings == Some(r));
        }
    }
}

/// Nothing that a verifier said is left out.
pub proof fn findings_are_reasons(tasks: Seq<TaskView>, i: int)
    requires
        0 <= i < tasks.len(),
        tasks[i].findings is Some,
        text::trim(tasks[i].findings->0).len() > 0,
    ensures
        reasons_in(tasks).contains(tasks[i].findings->0),
    decreases tasks.len(),
{
    let init = tasks.drop_last();
    let before = reasons_in(init);
    let all = reasons_in(tasks);
    if i < tasks.len() - 1 {
        assert(init[i] == tasks[i]);
        findings_are_reasons(init, i);
        let k = choose|k: int| 0 <= k < before.len() && before[k] == tasks[i].findings->0;
        assert(all[k] == before[k]);
    } else {
        assert(all[before.len() as int] == tasks[i].findings->0);
    }
}

/// The reasons of a run are the findings of its tasks that say something, each
/// and in their order, as they were written.
pub proof fn reasons_are_told_in_order(tasks: Seq<TaskView>)
    ensures
        reasons_in(tasks) == tasks.filter(
            |t: TaskView| t.findings is Some && text::trim(t.findings->0).len() > 0,
        ).map_values(|t: TaskView| t.findings->0),
    decreases tasks.len(),
{
    reveal(Seq::filter);
    let said = |t: TaskView| t.findings is Some && text::trim(t.findings->0).len() > 0;
    let tell = |t: TaskView| t.findings->0;
    if tasks.len() > 0 {
        let before = tasks.drop_last();
        reasons_are_told_in_order(before);
        assert(before.filter(said).push(tasks.last()).map_values(tell) =~= before.filter(
            said,
        ).map_values(tell).push(tell(tasks.last())));
    }
    assert(reasons_in(tasks) =~= tasks.filter(said).map_values(tell));
}

/// The entry of a plan for a task is the first with its name, and there is none
/// exactly where no entry has it.
pub proof fn the_first_entry_is_the_tasks_own(entries: Seq<JsonView>, id: Seq<char>)
    ensures
        entry_called(entries, id) is None <==> forall|i: int|
            0 <= i < entries.len() ==> (#[trigger] entries[i]).text_at("id"@) != Some(id),
        entry_called(entries, id) is Some ==> exists|i: int|
            0 <= i < entries.len() && entry_called(entries, id) == Some(#[trigger] entries[i])
                && entries[i].text_at("id"@) == Some(id) && forall|j: int|
                0 <= j < i ==> (#[trigger] entries[j]).text_at("id"@) != Some(id),
    decreases entries.len(),
{
    if entries.len() > 0 {
        let rest = entries.skip(1);
        the_first_entry_is_the_tasks_own(rest, id);
        assert(forall|i: int| 0 <= i < rest.len() ==> #[trigger] rest[i] == entries[i + 1]);
        if entries[0].text_at("id"@) == Some(id) {
            assert(entry_called(entries, id) == Some(entries[0]));
        } else if entry_called(rest, id) is Some {
            let i = choose|i: int|
                0 <= i < rest.len() && entry_called(rest, id) == Some(#[trigger] rest[i])
                    && rest[i].text_at("id"@) == Some(id) && forall|j: int|
                    0 <= j < i ==> (#[trigger] rest[j]).text_at("id"@) != Some(id);
            assert(entries[i + 1] == rest[i]);
            assert forall|j: int| 0 <= j < i + 1 implies (#[trigger] entries[j]).text_at("id"@)
                != Some(id) by {
                if j > 0 {
                    assert(rest[j - 1] == entries[j]);
                }
            }
        } else {
            assert forall|i: int| 0 <= i < entries.len() implies (#[trigger] entries[i]).text_at(
                "id"@,
            ) != Some(id) by {
                if i > 0 {
                    assert(rest[i - 1] == entries[i]);
                }
            }
        }
    }
}

/// What is harvested of a task is its own name, status and findings, and what its
/// entry in the plan says; without an entry, nothing is made up.
pub proof fn a_task_is_harvested_as_it_stands(t: TaskView, plan: Option<JsonView>)
    ensures
        ({
            let facts = task_facts(t, plan);
            let entry = planned(plan, t.id);
            &&& facts.id == t.id
            &&& facts.status == state::word_for(t.status)
            &&& facts.findings == t.findings
            &&& entry is None ==> facts.title is None && facts.done_criteria is None
            &&& entry is Some ==> facts.title == entry->0.text_at("title"@) && facts.done_criteria
                == entry->0.text_at("done_criteria"@)
        }),
        plan is None ==> planned(plan, t.id) is None,
        plan is Some ==> (plan->0.get("tasks"@) matches Some(JsonView::Array(entries)) ==> planned(
            plan,
            t.id,
        ) == entry_called(entries, t.id)),
        plan is Some && plan->0.get("tasks"@) is None ==> planned(plan, t.id) is None,
{
}

} // verus!
