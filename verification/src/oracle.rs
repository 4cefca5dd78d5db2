//! The fail-to-pass oracle: whether a fix comes with a test that failed before
//! it and passes after it.
//!
//! An oracle that could not be produced is not the same as an oracle that fell
//! over. The first leaves the task to the older gate. The second proves nothing
//! and is refused.

use vstd::prelude::*;

use crate::json;
use crate::json::{Json, JsonView};
use crate::text;
use crate::text::{blank, owned, owned_opt, same_str};

verus! {

/// What is known of the oracle of a task.
#[derive(Debug, PartialEq, Eq)]
pub struct OracleVerdict {
    /// The task has to have an oracle.
    pub required: bool,
    pub valid_fp_oracle: bool,
    /// The oracle does not apply, or could not be produced: the older gate
    /// decides.
    pub fallback: bool,
    /// The transition that was observed: nothing where none was asked for, and
    /// `Some(None)` where the oracle named none.
    pub transition: Option<Option<String>>,
    pub reason: String,
}

pub struct OracleView {
    pub required: bool,
    pub valid_fp_oracle: bool,
    pub fallback: bool,
    pub transition: Option<Option<Seq<char>>>,
    pub reason: Seq<char>,
}

impl View for OracleVerdict {
    type V = OracleView;

    open spec fn view(&self) -> OracleView {
        OracleView {
            required: self.required,
            valid_fp_oracle: self.valid_fp_oracle,
            fallback: self.fallback,
            transition: match self.transition {
                Some(t) => Some(text::opt(t)),
                None => None,
            },
            reason: self.reason@,
        }
    }
}

/// What an oracle's output claims: whether it is valid, and the transition.
pub open spec fn claims(document: Option<JsonView>) -> (bool, Option<Seq<char>>) {
    match document {
        Some(v) => (
            match v.get("valid_fp_oracle"@) {
                Some(b) => b.as_bool() == Some(true),
                None => false,
            },
            v.text_at("transition"@),
        ),
        None => (false, None),
    }
}

/// Reads what an oracle's output claims off its document, if it is one.
pub fn interpret_oracle(document: &Option<Json>) -> (r: (bool, Option<String>))
    ensures
        (r.0, text::opt(r.1)) == claims(json::opt(*document)),
{
    match document {
        Some(v) => {
            let valid = match v.get("valid_fp_oracle") {
                Some(b) => match b.as_bool() {
                    Some(yes) => yes,
                    None => false,
                },
                None => false,
            };
            let transition = match v.text_at("transition") {
                Some(t) => Some(t.clone()),
                None => None,
            };
            (valid, transition)
        },
        None => (false, None),
    }
}

/// What an oracle's output claims. Output that is no JSON claims nothing.
pub fn interpret_oracle_stdout(stdout: &str) -> (r: (bool, Option<String>))
    ensures
        (r.0, text::opt(r.1)) == claims(json::parsed(stdout@)),
{
    let document = json::parse(stdout);
    interpret_oracle(&document)
}

/// The verdict on a run of the oracle that came to an end. A transition
/// "unknown" says that there was nothing to compare, so no oracle was produced.
/// Anything else decides, and a transition that is missing proves nothing.
pub open spec fn verdict_of(valid: bool, transition: Option<Seq<char>>) -> OracleView {
    if transition == Some("unknown"@) && !valid {
        OracleView {
            required: true,
            valid_fp_oracle: false,
            fallback: true,
            transition: Some(Some("unknown"@)),
            reason:
                "no valid Fail→Pass proofs recorded (oracle could not be generated) — degrade to legacy done_criteria gate"@,
        }
    } else {
        OracleView {
            required: true,
            valid_fp_oracle: valid,
            fallback: false,
            transition: Some(transition),
            reason: if valid {
                "fail-to-pass oracle confirmed"@
            } else {
                "tdd oracle reported a complete but non-fail-to-pass transition"@
            },
        }
    }
}

/// The verdict on what a finished oracle claims.
pub fn verdict_from_oracle(valid: bool, transition: Option<&str>) -> (r: OracleVerdict)
    ensures
        r@ == verdict_of(valid, text::opt_str(transition)),
{
    let unknown = match transition {
        Some(t) => same_str(t, "unknown"),
        None => false,
    };
    if unknown && !valid {
        return OracleVerdict {
            required: true,
            valid_fp_oracle: false,
            fallback: true,
            transition: Some(Some(owned("unknown"))),
            reason: owned(
                "no valid Fail→Pass proofs recorded (oracle could not be generated) — degrade to legacy done_criteria gate",
            ),
        };
    }
    OracleVerdict {
        required: true,
        valid_fp_oracle: valid,
        fallback: false,
        transition: Some(owned_opt(transition)),
        reason: if valid {
            owned("fail-to-pass oracle confirmed")
        } else {
            owned("tdd oracle reported a complete but non-fail-to-pass transition")
        },
    }
}

/// A verdict that observed no transition.
pub open spec fn unobserved(required: bool, fallback: bool, reason: Seq<char>) -> OracleView {
    OracleView { required, valid_fp_oracle: false, fallback, transition: None, reason }
}

fn without_transition(required: bool, fallback: bool, reason: &str) -> (r: OracleVerdict)
    ensures
        r@ == unobserved(required, fallback, reason@),
{
    OracleVerdict {
        required,
        valid_fp_oracle: false,
        fallback,
        transition: None,
        reason: owned(reason),
    }
}

/// The verdict on the output of an oracle, given the document that it spells. A
/// run that failed proves nothing, whatever it printed.
pub open spec fn verdict_on_run(stdout: Seq<char>, document: Option<JsonView>, exit_ok: bool) ->
    OracleView {
    if !exit_ok {
        unobserved(
            true,
            false,
            "tdd oracle exited non-zero — the F→P oracle could not be determined, which is not the same as it being unavailable"@,
        )
    } else if text::trim(stdout).len() == 0 {
        unobserved(true, true, "tdd oracle produced no stdout"@)
    } else if document is None {
        unobserved(true, true, "could not parse tdd oracle stdout as JSON"@)
    } else {
        verdict_of(claims(document).0, claims(document).1)
    }
}

/// The verdict on a run of the oracle, given the document that its output
/// spells.
pub fn verdict_from_document(stdout: &str, document: &Option<Json>, exit_ok: bool) -> (r:
    OracleVerdict)
    ensures
        r@ == verdict_on_run(stdout@, json::opt(*document), exit_ok),
{
    if !exit_ok {
        return without_transition(
            true,
            false,
            "tdd oracle exited non-zero — the F→P oracle could not be determined, which is not the same as it being unavailable",
        );
    }
    if blank(stdout) {
        return without_transition(true, true, "tdd oracle produced no stdout");
    }
    if document.is_none() {
        return without_transition(true, true, "could not parse tdd oracle stdout as JSON");
    }
    let (valid, transition) = interpret_oracle(document);
    let named = match &transition {
        Some(t) => Some(t.as_str()),
        None => None,
    };
    verdict_from_oracle(valid, named)
}

/// The verdict on a run of the oracle: its output, and whether it exited with 0.
pub fn verdict_from_oracle_output(stdout: &str, exit_ok: bool) -> (r: OracleVerdict)
    ensures
        r@ == verdict_on_run(stdout@, json::parsed(stdout@), exit_ok),
{
    let document = json::parse(stdout);
    verdict_from_document(stdout, &document, exit_ok)
}

/// What came of running the oracle.
#[derive(Debug)]
pub enum OracleRun {
    /// It ran: what it printed, and whether it exited with 0.
    Finished { stdout: String, exit_ok: bool },
    /// It could not be started.
    NotStarted { error: String },
}

/// Whether an oracle is to be run for a task at all.
pub fn oracle_applies(requires_oracle: bool, reproduction_tests: Option<&str>) -> (r: bool)
    ensures
        r == (requires_oracle && reproduction_tests is Some),
{
    requires_oracle && reproduction_tests.is_some()
}

/// The verdict on a task: that no oracle is asked of it, or what came of running
/// the oracle. `run` is not looked at where no oracle is asked for.
pub fn check_oracle(
    requires_oracle: bool,
    reproduction_tests: Option<&str>,
    run: &OracleRun,
) -> (r: OracleVerdict)
    ensures
        r@ == (if !requires_oracle || reproduction_tests is None {
            unobserved(false, true, "not a fix/feature task or no reproduction_tests"@)
        } else {
            match *run {
                OracleRun::Finished { stdout, exit_ok } => verdict_on_run(
                    stdout@,
                    json::parsed(stdout@),
                    exit_ok,
                ),
                OracleRun::NotStarted { error } => unobserved(
                    true,
                    true,
                    "failed to spawn tdd: "@ + error@,
                ),
            }
        }),
        r.required <==> requires_oracle && reproduction_tests is Some,
        r.valid_fp_oracle ==> r.required && (*run matches OracleRun::Finished { exit_ok, .. }
            && exit_ok),
        !r.required ==> r.fallback,
{
    if !oracle_applies(requires_oracle, reproduction_tests) {
        return without_transition(
            false,
            true,
            "not a fix/feature task or no reproduction_tests",
        );
    }
    match run {
        OracleRun::Finished { stdout, exit_ok } => {
            verdict_from_oracle_output(stdout.as_str(), *exit_ok)
        },
        OracleRun::NotStarted { error } => {
            let mut reason = owned("failed to spawn tdd: ");
            reason.push_str(error.as_str());
            without_transition(true, true, reason.as_str())
        },
    }
}

/// Whether a task may be verified.
#[derive(Debug, Clone, Copy, PartialEq, Eq, Structural)]
pub enum FpGateDecision {
    /// It may. What the oracle had to say, where it is not left to the older
    /// gate.
    Allow(Option<bool>),
    /// It may not.
    Reject,
}

/// What a verdict on an oracle leads to.
pub open spec fn gates(v: OracleView) -> FpGateDecision {
    if v.fallback {
        FpGateDecision::Allow(None)
    } else if v.required && !v.valid_fp_oracle {
        FpGateDecision::Reject
    } else {
        FpGateDecision::Allow(Some(v.valid_fp_oracle))
    }
}

/// Whether a task may be verified, by what is known of its oracle.
pub fn enforce_fp_gate(verdict: &OracleVerdict) -> (r: FpGateDecision)
    ensures
        r == gates(verdict@),
{
    if verdict.fallback {
        FpGateDecision::Allow(None)
    } else if verdict.required && !verdict.valid_fp_oracle {
        FpGateDecision::Reject
    } else {
        FpGateDecision::Allow(Some(verdict.valid_fp_oracle))
    }
}

// ---- laws ----------------------------------------------------------------

/// An oracle that fell over never lets a task through, whatever it printed.
pub proof fn a_failed_run_is_refused(stdout: Seq<char>, document: Option<JsonView>)
    ensures
        gates(verdict_on_run(stdout, document, false)) == FpGateDecision::Reject,
{
}

/// A run that ended is refused exactly where it printed a document that claims
/// neither a proof nor that there was nothing to compare.
pub proof fn only_a_claim_of_neither_is_refused(
    stdout: Seq<char>,
    document: Option<JsonView>,
)
    ensures
        gates(verdict_on_run(stdout, document, true)) == FpGateDecision::Reject <==> text::trim(
            stdout,
        ).len() > 0 && document is Some && !claims(document).0 && claims(document).1 != Some(
            "unknown"@,
        ),
{
}

/// A task is recorded as proved only where a run that ended claimed so.
pub proof fn proof_takes_a_finished_run(
    stdout: Seq<char>,
    document: Option<JsonView>,
    exit_ok: bool,
)
    ensures
        gates(verdict_on_run(stdout, document, exit_ok)) == FpGateDecision::Allow(Some(true)) ==>
            exit_ok && document is Some && claims(document).0,
{
}

/// A verdict is refused exactly where an oracle was required, it was not valid
/// and nothing else is to decide; where something else is to decide, nothing is
/// claimed to be proved; and otherwise what is claimed is what the oracle showed.
pub proof fn the_gate_reads_the_verdict(v: OracleView)
    ensures
        gates(v) is Reject <==> v.required && !v.valid_fp_oracle && !v.fallback,
        v.fallback ==> gates(v) == FpGateDecision::Allow(None),
        !v.fallback && v.valid_fp_oracle ==> gates(v) == FpGateDecision::Allow(Some(true)),
        !v.fallback && !v.required && !v.valid_fp_oracle ==> gates(v) == FpGateDecision::Allow(
            Some(false),
        ),
{
}

/// What an oracle reports is taken as it is: only `true` is a claim of validity,
/// and what was not reported is not made up.
pub proof fn only_true_claims_validity(document: Option<JsonView>)
    ensures
        document is None ==> !claims(document).0 && claims(document).1 is None,
        document is Some ==> claims(document).1 == document->0.text_at("transition"@),
        document is Some && document->0.get("valid_fp_oracle"@) is None ==> !claims(document).0,
        document is Some && document->0.get("valid_fp_oracle"@) is Some ==> (claims(document).0
            <==> document->0.get("valid_fp_oracle"@)->0.as_bool() == Some(true)),
{
}

/// A valid oracle passes with its proof, whatever transition it names; one that
/// is not valid leaves the decision elsewhere where its transition is unknown,
/// and is refused where it is any other or none.
pub proof fn an_oracle_is_taken_at_its_word(valid: bool, transition: Option<Seq<char>>)
    ensures
        verdict_of(valid, transition).required,
        verdict_of(valid, transition).valid_fp_oracle == valid,
        verdict_of(valid, transition).transition == Some(transition),
        valid ==> gates(verdict_of(valid, transition)) == FpGateDecision::Allow(Some(true)),
        !valid && transition == Some("unknown"@) ==> gates(verdict_of(valid, transition))
            == FpGateDecision::Allow(None),
        !valid && transition != Some("unknown"@) ==> gates(verdict_of(valid, transition))
            is Reject,
{
}

/// A run that failed is refused; one that said nothing, or nothing readable,
/// leaves the decision elsewhere; and one that was read is taken at its word.
pub proof fn a_run_that_says_nothing_proves_nothing(
    stdout: Seq<char>,
    document: Option<JsonView>,
    exit_ok: bool,
)
    ensures
        !exit_ok ==> gates(verdict_on_run(stdout, document, exit_ok)) is Reject,
        exit_ok && text::trim(stdout).len() == 0 ==> gates(
            verdict_on_run(stdout, document, exit_ok),
        ) == FpGateDecision::Allow(None),
        exit_ok && document is None ==> gates(verdict_on_run(stdout, document, exit_ok))
            == FpGateDecision::Allow(None),
        exit_ok && text::trim(stdout).len() != 0 && document is Some ==> verdict_on_run(
            stdout,
            document,
            exit_ok,
        ) == verdict_of(claims(document).0, claims(document).1),
        verdict_on_run(stdout, document, exit_ok).required,
{
}

} // verus!
