//! Whether a gated task may run by itself or has to wait for a human.
//!
//! Only the clearly safe corner runs by itself: low risk, reversible, and a
//! policy that says so. A risk that could not be assessed waits.

use vstd::prelude::*;

use crate::gatelog::GateExecRecord;
use crate::model;
use crate::model::{Decomposition, Task};
use crate::text;
use crate::text::owned;
use crate::verdict::Determination;

verus! {

/// How risky an action is.
#[derive(Debug, Clone, Copy, PartialEq, Eq, Structural)]
pub enum Risk {
    Low,
    Medium,
    High,
}

/// What is known of an action.
#[derive(Debug, Clone, Copy, PartialEq, Eq, Structural)]
pub struct RiskAssessment {
    pub risk: Risk,
    pub reversible: bool,
}

/// Run it, or ask.
#[derive(Debug, Clone, Copy, PartialEq, Eq, Structural)]
pub enum GateExec {
    AutoExec,
    Escalate,
}

/// Whether an action is safe enough to run by itself.
pub open spec fn is_safe(risk: Risk, reversible: bool, policy_is_auto: bool) -> bool {
    risk == Risk::Low && reversible && policy_is_auto
}

/// Decides on an action: it runs by itself exactly where it is of low risk, can
/// be undone, and the policy allows it.
pub fn decide_gate_exec(risk: Risk, reversible: bool, policy_is_auto: bool) -> (r: GateExec)
    ensures
        r == (if is_safe(risk, reversible, policy_is_auto) {
            GateExec::AutoExec
        } else {
            GateExec::Escalate
        }),
{
    if matches!(risk, Risk::Low) && reversible && policy_is_auto {
        GateExec::AutoExec
    } else {
        GateExec::Escalate
    }
}

/// The slug of a risk.
pub open spec fn slug(risk: Risk) -> Seq<char> {
    match risk {
        Risk::Low => "low"@,
        Risk::Medium => "medium"@,
        Risk::High => "high"@,
    }
}

fn risk_slug(risk: Risk) -> (r: &'static str)
    ensures
        r@ == slug(risk),
{
    match risk {
        Risk::Low => "low",
        Risk::Medium => "medium",
        Risk::High => "high",
    }
}

/// What was found out about a gated task.
#[derive(Debug, PartialEq, Eq)]
pub enum GatherOutcome {
    /// Its risk was assessed.
    Assessed(RiskAssessment),
    /// There was nothing to assess: no such run, plan or task.
    Missing,
    /// Its risk could not be assessed, and why.
    Undetermined(String),
}

/// An assessment, or why there is none.
#[derive(Debug, PartialEq, Eq)]
pub enum Resolved {
    Assessed(RiskAssessment),
    Undetermined(String),
}

/// Takes a classification apart. The reason of one that could not be made is
/// kept.
pub fn resolve_assessment(d: Determination<RiskAssessment>) -> (r: Resolved)
    ensures
        match d {
            Determination::Known(a) => r == Resolved::Assessed(a),
            Determination::Undetermined(why) => r is Undetermined && r->Undetermined_0@ == why@,
        },
{
    match d {
        Determination::Known(a) => Resolved::Assessed(a),
        Determination::Undetermined(why) => Resolved::Undetermined(why),
    }
}

/// What a classification comes to, once it was tried.
pub open spec fn tried(classified: Determination<RiskAssessment>, r: GatherOutcome) -> bool {
    match classified {
        Determination::Known(a) => r == GatherOutcome::Assessed(a),
        Determination::Undetermined(why) => r is Undetermined && r->Undetermined_0@ == why@,
    }
}

/// What is found out about the task called `task_id` of a plan. `classify` is
/// asked about that task, and about nothing where there is no plan or no such
/// task in it.
pub fn gather_assessment<C: Fn(&Task) -> Determination<RiskAssessment>>(
    plan: Option<&Decomposition>,
    task_id: &str,
    classify: &C,
) -> (r: GatherOutcome)
    requires
        forall|t: &Task| call_requires(*classify, (t,)),
    ensures
        (plan is None || model::no_task(plan->0.tasks@, task_id@)) ==> r == GatherOutcome::Missing,
        plan matches Some(p) ==> forall|i: int| #[trigger]
            model::is_task(p.tasks@, task_id@, i) ==> exists|d: Determination<RiskAssessment>|
                call_ensures(*classify, (&p.tasks@[i],), d) && #[trigger] tried(d, r),
{
    match plan {
        Some(p) => match p.find(task_id) {
            Some(i) => {
                let classified = classify(&p.tasks[i]);
                let ghost d = classified;
                let r = match resolve_assessment(classified) {
                    Resolved::Assessed(a) => GatherOutcome::Assessed(a),
                    Resolved::Undetermined(why) => GatherOutcome::Undetermined(why),
                };
                proof {
                    assert(tried(d, r));
                    assert(p.tasks@[i as int].id@ == task_id@);
                    assert forall|k: int| #[trigger]
                        model::is_task(p.tasks@, task_id@, k) implies k == i by {
                        if k < i {
                            assert(p.tasks@[k].id@ != task_id@);
                        } else if i < k {
                            assert(p.tasks@[i as int].id@ != task_id@);
                        }
                    }
                }
                r
            },
            None => {
                proof {
                    assert forall|k: int| !#[trigger]
                        model::is_task(p.tasks@, task_id@, k) by {
                        if model::is_task(p.tasks@, task_id@, k) {
                            assert(p.tasks@[k].id@ != task_id@);
                        }
                    }
                }
                GatherOutcome::Missing
            },
        },
        None => GatherOutcome::Missing,
    }
}

/// What is decided on what was found out.
pub open spec fn decided(outcome: GatherOutcome, policy_is_auto: bool) -> GateExec {
    match outcome {
        GatherOutcome::Assessed(a) => if is_safe(a.risk, a.reversible, policy_is_auto) {
            GateExec::AutoExec
        } else {
            GateExec::Escalate
        },
        _ => GateExec::Escalate,
    }
}

/// The assessment that was made, if one was.
pub open spec fn assessed(outcome: GatherOutcome) -> Option<RiskAssessment> {
    match outcome {
        GatherOutcome::Assessed(a) => Some(a),
        _ => None,
    }
}

/// Why none could be made, where one was tried.
pub open spec fn undetermined(outcome: GatherOutcome) -> Option<Seq<char>> {
    match outcome {
        GatherOutcome::Undetermined(why) => Some(why@),
        _ => None,
    }
}

/// Decides, and says what the decision rests on.
pub fn decide_from_outcome(outcome: &GatherOutcome, policy_is_auto: bool) -> (r: (
    GateExec,
    Option<RiskAssessment>,
    Option<&str>,
))
    ensures
        r.0 == decided(*outcome, policy_is_auto),
        r.1 == assessed(*outcome),
        text::opt_str(r.2) == undetermined(*outcome),
{
    match outcome {
        GatherOutcome::Assessed(a) => (
            decide_gate_exec(a.risk, a.reversible, policy_is_auto),
            Some(*a),
            None,
        ),
        GatherOutcome::Missing => (GateExec::Escalate, None, None),
        GatherOutcome::Undetermined(why) => (GateExec::Escalate, None, Some(why.as_str())),
    }
}

/// The word for a decision.
pub open spec fn word(g: GateExec) -> Seq<char> {
    match g {
        GateExec::AutoExec => "auto_exec"@,
        GateExec::Escalate => "escalate"@,
    }
}

/// The exit code that goes with a decision.
pub open spec fn code(g: GateExec) -> i32 {
    match g {
        GateExec::AutoExec => 0,
        GateExec::Escalate => 1,
    }
}

/// The exit code: 0 to run it, 1 to ask.
pub fn exit_code_for(verdict: GateExec) -> (r: i32)
    ensures
        r == code(verdict),
{
    match verdict {
        GateExec::AutoExec => 0,
        GateExec::Escalate => 1,
    }
}

/// A finding for the review queue.
#[derive(Debug, PartialEq, Eq)]
pub struct Finding {
    pub id: String,
    pub severity: &'static str,
    pub summary: String,
}

/// Everything that a check of a gate leads to.
#[derive(Debug)]
pub struct GateCheck {
    pub verdict: GateExec,
    /// The word for the verdict.
    pub word: &'static str,
    pub risk: Option<&'static str>,
    pub reversible: Option<bool>,
    pub policy_is_auto: bool,
    pub task: String,
    /// Why the risk could not be assessed, where that was tried.
    pub undetermined_reason: Option<String>,
    /// The run is checkpointed before anything else happens.
    pub checkpoint: bool,
    pub record: GateExecRecord,
    /// What goes to the review queue.
    pub finding: Option<Finding>,
    pub exit_code: i32,
}

/// A truth value in words.
pub open spec fn spelt(b: bool) -> Seq<char> {
    if b {
        "true"@
    } else {
        "false"@
    }
}

fn spell(b: bool) -> (r: &'static str)
    ensures
        r@ == spelt(b),
{
    if b {
        "true"
    } else {
        "false"
    }
}

/// The summary of a finding.
pub open spec fn summary_of(
    task_id: Seq<char>,
    assessment: Option<RiskAssessment>,
    why: Option<Seq<char>>,
    policy_is_auto: bool,
) -> Seq<char> {
    match why {
        Some(reason) => "gate-check escalated: task "@ + task_id
            + " risk classification could not be determined ("@ + reason + "); policy_is_auto="@
            + spelt(policy_is_auto),
        None => "gate-check escalated: task "@ + task_id + " risk="@ + (match assessment {
            Some(a) => slug(a.risk),
            None => "unknown"@,
        }) + " reversible="@ + (match assessment {
            Some(a) => spelt(a.reversible),
            None => "unknown"@,
        }) + " policy_is_auto="@ + spelt(policy_is_auto),
    }
}

fn summarise(
    task_id: &str,
    assessment: &Option<RiskAssessment>,
    why: &Option<String>,
    policy_is_auto: bool,
) -> (r: String)
    ensures
        r@ == summary_of(task_id@, *assessment, text::opt(*why), policy_is_auto),
{
    let mut s = owned("gate-check escalated: task ");
    s.push_str(task_id);
    match why {
        Some(reason) => {
            s.push_str(" risk classification could not be determined (");
            s.push_str(reason.as_str());
            s.push_str("); policy_is_auto=");
        },
        None => {
            let (risk, reversible) = match assessment {
                Some(a) => (risk_slug(a.risk), spell(a.reversible)),
                None => ("unknown", "unknown"),
            };
            s.push_str(" risk=");
            s.push_str(risk);
            s.push_str(" reversible=");
            s.push_str(reversible);
            s.push_str(" policy_is_auto=");
        },
    }
    s.push_str(spell(policy_is_auto));
    s
}

/// The risk that an assessment names.
pub open spec fn risk_of(assessment: Option<RiskAssessment>) -> Option<Seq<char>> {
    match assessment {
        Some(a) => Some(slug(a.risk)),
        None => None,
    }
}

/// The reversibility that an assessment names.
pub open spec fn reversibility_of(assessment: Option<RiskAssessment>) -> Option<bool> {
    match assessment {
        Some(a) => Some(a.reversible),
        None => None,
    }
}

/// Checks whether a task may go ahead: decides, and says what to print, whether to
/// checkpoint the run first, what to journal, what to put on the review queue,
/// and how to exit. The finding is named after the run and the task, so that
/// checking the same gate again does not add another.
pub fn run_gate_check(
    outcome: &GatherOutcome,
    policy_is_auto: bool,
    run_id: &str,
    task_id: &str,
    now: i64,
) -> (r: GateCheck)
    ensures
        r.verdict == decided(*outcome, policy_is_auto),
        r.word@ == word(r.verdict),
        text::opt_str(r.risk) == risk_of(assessed(*outcome)),
        r.reversible == reversibility_of(assessed(*outcome)),
        r.policy_is_auto == policy_is_auto,
        r.task@ == task_id@,
        text::opt(r.undetermined_reason) == undetermined(*outcome),
        r.checkpoint == (r.verdict == GateExec::AutoExec),
        r.record.verdict@ == word(r.verdict),
        r.record.task@ == task_id@,
        text::opt(r.record.risk) == risk_of(assessed(*outcome)),
        r.record.reversible == r.reversible,
        r.record.policy_is_auto == policy_is_auto,
        r.record.recorded_at == now,
        r.finding is Some <==> r.verdict == GateExec::Escalate,
        r.finding matches Some(f) ==> {
            &&& f.id@ == "gate-exec:"@ + run_id@ + ":"@ + task_id@
            &&& f.severity@ == (if assessed(*outcome) is Some && assessed(*outcome)->0.risk
                == Risk::High {
                "high"@
            } else {
                "medium"@
            })
            &&& f.summary@ == summary_of(
                task_id@,
                assessed(*outcome),
                undetermined(*outcome),
                policy_is_auto,
            )
        },
        r.exit_code == code(r.verdict),
{
    let (verdict, assessment, why) = decide_from_outcome(outcome, policy_is_auto);
    let undetermined_reason = text::owned_opt(why);
    let word = match verdict {
        GateExec::AutoExec => "auto_exec",
        GateExec::Escalate => "escalate",
    };
    let (risk, reversible) = match &assessment {
        Some(a) => (Some(risk_slug(a.risk)), Some(a.reversible)),
        None => (None, None),
    };
    let record = GateExecRecord {
        verdict: owned(word),
        task: owned(task_id),
        risk: text::owned_opt(risk),
        reversible,
        policy_is_auto,
        recorded_at: now,
    };
    let finding = match verdict {
        GateExec::AutoExec => None,
        GateExec::Escalate => {
            let mut id = owned("gate-exec:");
            id.push_str(run_id);
            id.push_str(":");
            id.push_str(task_id);
            let high = match &assessment {
                Some(a) => a.risk == Risk::High,
                None => false,
            };
            let severity = if high {
                "high"
            } else {
                "medium"
            };
            let summary = summarise(task_id, &assessment, &undetermined_reason, policy_is_auto);
            Some(Finding { id, severity, summary })
        },
    };
    GateCheck {
        verdict,
        word,
        risk,
        reversible,
        policy_is_auto,
        task: owned(task_id),
        undetermined_reason,
        checkpoint: matches!(verdict, GateExec::AutoExec),
        record,
        finding,
        exit_code: exit_code_for(verdict),
    }
}

// ---- laws ----------------------------------------------------------------

/// A task whose risk was not assessed never runs by itself, and neither does one
/// that cannot be undone, is of more than low risk, or that the policy holds
/// back.
pub proof fn only_the_safe_corner_runs(outcome: GatherOutcome, policy_is_auto: bool)
    ensures
        decided(outcome, policy_is_auto) == GateExec::AutoExec <==> policy_is_auto && assessed(
            outcome,
        ) is Some && assessed(outcome)->0.risk == Risk::Low && assessed(outcome)->0.reversible,
{
}

/// Every decision is either "run" with exit code 0 or "ask" with exit code 1.
pub proof fn exit_codes_tell_decisions_apart(g: GateExec, h: GateExec)
    ensures
        code(g) == code(h) <==> g == h,
{
}

/// A gate is run by itself exactly where the risk was assessed as low, the change
/// can be undone and the policy is to go on; what was not found, or could not be
/// assessed, is always handed on, and is told as it is.
pub proof fn what_was_not_assessed_is_handed_on(outcome: GatherOutcome, policy_is_auto: bool)
    ensures
        decided(outcome, policy_is_auto) == GateExec::AutoExec <==> policy_is_auto && (outcome
            matches GatherOutcome::Assessed(a) && a.risk == Risk::Low && a.reversible),
        outcome == GatherOutcome::Missing ==> decided(outcome, policy_is_auto)
            == GateExec::Escalate && assessed(outcome) is None && undetermined(outcome) is None,
        outcome is Undetermined ==> decided(outcome, policy_is_auto) == GateExec::Escalate
            && assessed(outcome) is None && undetermined(outcome) == Some(
            outcome->Undetermined_0@,
        ),
        outcome is Assessed ==> assessed(outcome) == Some(outcome->Assessed_0) && undetermined(
            outcome,
        ) is None,
        code(decided(outcome, policy_is_auto)) == 0 <==> decided(outcome, policy_is_auto)
            == GateExec::AutoExec,
        code(decided(outcome, policy_is_auto)) == 1 <==> decided(outcome, policy_is_auto)
            == GateExec::Escalate,
{
}

/// The safe corner is one of all: a low risk that can be undone under a policy to
/// go on.
pub proof fn only_a_low_risk_that_can_be_undone_is_safe(
    risk: Risk,
    reversible: bool,
    policy_is_auto: bool,
)
    ensures
        is_safe(risk, reversible, policy_is_auto) ==> reversible && policy_is_auto,
        risk == Risk::Medium || risk == Risk::High ==> !is_safe(risk, reversible, policy_is_auto),
        is_safe(Risk::Low, true, true),
        risk_of(Some((RiskAssessment { risk, reversible }))) == Some(slug(risk)),
        risk_of(None) is None,
        reversibility_of(Some((RiskAssessment { risk, reversible }))) == Some(reversible),
        reversibility_of(None) is None,
{
}

/// Every decision and every risk has a word of its own, and so has each side of a
/// question.
pub proof fn decisions_and_risks_are_worded_apart(g: GateExec, r: Risk, b: bool)
    ensures
        word(g) == "auto_exec"@ <==> g == GateExec::AutoExec,
        word(g) == "escalate"@ <==> g == GateExec::Escalate,
        slug(r) == "low"@ <==> r == Risk::Low,
        slug(r) == "medium"@ <==> r == Risk::Medium,
        slug(r) == "high"@ <==> r == Risk::High,
        spelt(b) == "true"@ <==> b,
        spelt(b) == "false"@ <==> !b,
{
    reveal_strlit("auto_exec");
    reveal_strlit("escalate");
    reveal_strlit("low");
    reveal_strlit("medium");
    reveal_strlit("high");
    reveal_strlit("true");
    reveal_strlit("false");
    assert("auto_exec"@.len() == 9 && "escalate"@.len() == 8);
    assert("low"@.len() == 3 && "medium"@.len() == 6 && "high"@.len() == 4);
    assert("true"@.len() == 4 && "false"@.len() == 5);
}

/// What a classification came to is what was classified, and nothing else.
pub proof fn a_classification_is_taken_as_it_is(
    classified: Determination<RiskAssessment>,
    r: GatherOutcome,
)
    requires
        tried(classified, r),
    ensures
        classified is Known ==> r == GatherOutcome::Assessed(classified->Known_0),
        classified is Undetermined ==> r is Undetermined && r->Undetermined_0@
            == classified->Undetermined_0@,
        r != GatherOutcome::Missing,
{
}

/// A summary names the task, whatever was found, and why where that was left
/// open.
pub proof fn a_summary_names_the_task(
    task_id: Seq<char>,
    assessment: Option<RiskAssessment>,
    why: Option<Seq<char>>,
    policy_is_auto: bool,
)
    ensures
        text::holds_text(summary_of(task_id, assessment, why, policy_is_auto), task_id),
        why is Some ==> text::holds_text(
            summary_of(task_id, assessment, why, policy_is_auto),
            why->0,
        ),
        why is None && assessment is Some ==> text::holds_text(
            summary_of(task_id, assessment, why, policy_is_auto),
            slug(assessment->0.risk),
        ),
{
    let whole = summary_of(task_id, assessment, why, policy_is_auto);
    let a = "gate-check escalated: task "@;
    let end = spelt(policy_is_auto);
    match why {
        Some(reason) => {
            let b = " risk classification could not be determined ("@;
            let c = "); policy_is_auto="@;
            text::a_text_holds_its_parts(a, task_id, b + reason + c + end, task_id);
            assert(whole =~= a + task_id + (b + reason + c + end));
            text::a_text_holds_its_parts(a + task_id + b, reason, c + end, reason);
            assert(whole =~= (a + task_id + b) + reason + (c + end));
        },
        None => {
            let b = " risk="@;
            let risk = match assessment {
                Some(a) => slug(a.risk),
                None => "unknown"@,
            };
            let back = match assessment {
                Some(a) => spelt(a.reversible),
                None => "unknown"@,
            };
            let rest = " reversible="@ + back + " policy_is_auto="@ + end;
            text::a_text_holds_its_parts(a, task_id, b + risk + rest, task_id);
            assert(whole =~= a + task_id + (b + risk + rest));
            text::a_text_holds_its_parts(a + task_id + b, risk, rest, risk);
            assert(whole =~= (a + task_id + b) + risk + rest);
        },
    }
}

} // verus!
