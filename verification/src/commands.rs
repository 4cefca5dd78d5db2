//! What the remaining commands decide and say.

use vstd::prelude::*;

use crate::consensus::{Consensus, Plan};
use crate::escalate::Escalation;
use crate::text;
use crate::text::{
    blank, copy_opt, dec_usize, holds_part, join, owned, put_around, to_lowercase, trimmed,
};

verus! {

// ---- plans ---------------------------------------------------------------

/// What `validate` says of a plan with so many tasks and these errors.
pub fn validate(tasks: usize, errors: &Vec<String>) -> (r: Result<String, String>)
    ensures
        match r {
            Ok(line) => errors@.len() == 0 && line@ == text::around(
                "ok: "@,
                text::dec(tasks as nat),
                " task(s)"@,
            ),
            Err(why) => errors@.len() > 0 && why@ == "invalid:\n  - "@ + text::joined(
                text::texts(errors@),
                "\n  - "@,
            ),
        },
{
    if errors.len() == 0 {
        let count = dec_usize(tasks);
        Ok(put_around("ok: ", count.as_str(), " task(s)"))
    } else {
        let mut why = owned("invalid:\n  - ");
        let list = join(errors, "\n  - ");
        why.push_str(list.as_str());
        Err(why)
    }
}

// ---- launching -----------------------------------------------------------

/// How a target is to be launched.
#[derive(Debug)]
pub struct LaunchRequest {
    pub run_policy: bool,
    pub docker: bool,
    pub health_url: Option<String>,
    pub cheap_verify: Option<String>,
    pub divergence: Option<String>,
    pub change_risk: Option<String>,
}

/// The way in which a target is launched.
#[derive(Debug, PartialEq, Eq)]
pub enum LaunchPath {
    /// As the run policy decides on these signals.
    RunPolicy { cheap_verify: String, divergence: String, change_risk: String },
    /// In a container.
    Container,
    /// As a server, asked for its health.
    Probe { url: String },
    /// Until it exits.
    Wait,
}

/// A signal, or what stands in for one that is missing.
pub open spec fn signal(given: Option<Seq<char>>, otherwise: Seq<char>) -> Seq<char> {
    match given {
        Some(s) => s,
        None => otherwise,
    }
}

fn signal_or(given: &Option<String>, otherwise: &str) -> (r: String)
    ensures
        r@ == signal(text::opt(*given), otherwise@),
{
    match given {
        Some(s) => s.clone(),
        None => owned(otherwise),
    }
}

/// The way in which a target is launched. The run policy comes first, then the
/// container, then the health check. A signal that is missing counts as the most
/// careful one.
pub fn launch_path(req: &LaunchRequest) -> (r: LaunchPath)
    ensures
        match r {
            LaunchPath::RunPolicy { cheap_verify, divergence, change_risk } => {
                &&& req.run_policy
                &&& cheap_verify@ == signal(text::opt(req.cheap_verify), "unknown"@)
                &&& divergence@ == signal(text::opt(req.divergence), "high"@)
                &&& change_risk@ == signal(text::opt(req.change_risk), "high"@)
            },
            LaunchPath::Container => !req.run_policy && req.docker,
            LaunchPath::Probe { url } => !req.run_policy && !req.docker && text::opt(req.health_url)
                == Some(url@),
            LaunchPath::Wait => !req.run_policy && !req.docker && req.health_url is None,
        },
{
    if req.run_policy {
        LaunchPath::RunPolicy {
            cheap_verify: signal_or(&req.cheap_verify, "unknown"),
            divergence: signal_or(&req.divergence, "high"),
            change_risk: signal_or(&req.change_risk, "high"),
        }
    } else if req.docker {
        LaunchPath::Container
    } else {
        match &req.health_url {
            Some(url) => LaunchPath::Probe { url: url.clone() },
            None => LaunchPath::Wait,
        }
    }
}

/// What the run policy says.
#[derive(Debug, Clone, Copy, PartialEq, Eq, Structural)]
pub enum RunPolicyVerdict {
    VerifyOnly,
    EscalateDocker,
    EscalateShip,
    AskHuman,
}

/// The slug of a verdict.
pub open spec fn policy_slug(v: RunPolicyVerdict) -> Seq<char> {
    match v {
        RunPolicyVerdict::VerifyOnly => "verify_only"@,
        RunPolicyVerdict::EscalateDocker => "escalate_docker"@,
        RunPolicyVerdict::EscalateShip => "escalate_ship"@,
        RunPolicyVerdict::AskHuman => "ask_human"@,
    }
}

/// A decision of the run policy, with the signals that it rests on.
#[derive(Debug)]
pub struct RunPolicyDecision {
    pub verdict: RunPolicyVerdict,
    pub reason: String,
    pub cheap_verify: String,
    pub divergence: String,
    pub change_risk: String,
}

/// What is journaled of such a decision.
#[derive(Debug)]
pub struct RunPolicyLogRecord {
    pub verdict: String,
    pub reason: String,
    pub cheap_verify: String,
    pub divergence: String,
    pub change_risk: String,
    pub recorded_at: i64,
}

/// What to journal of a decision of the run policy.
pub fn run_policy_record(d: &RunPolicyDecision, now: i64) -> (r: RunPolicyLogRecord)
    ensures
        r.verdict@ == policy_slug(d.verdict),
        r.reason@ == d.reason@,
        r.cheap_verify@ == d.cheap_verify@,
        r.divergence@ == d.divergence@,
        r.change_risk@ == d.change_risk@,
        r.recorded_at == now,
{
    let slug = match d.verdict {
        RunPolicyVerdict::VerifyOnly => "verify_only",
        RunPolicyVerdict::EscalateDocker => "escalate_docker",
        RunPolicyVerdict::EscalateShip => "escalate_ship",
        RunPolicyVerdict::AskHuman => "ask_human",
    };
    RunPolicyLogRecord {
        verdict: owned(slug),
        reason: d.reason.clone(),
        cheap_verify: d.cheap_verify.clone(),
        divergence: d.divergence.clone(),
        change_risk: d.change_risk.clone(),
        recorded_at: now,
    }
}

/// Where a worker's command runs.
#[derive(Debug, PartialEq, Eq)]
pub enum SandboxPath {
    Container { image: String },
    Host,
}

/// Where a worker's command runs: in a container exactly where that is switched
/// on.
pub fn sandbox_path(enabled: bool, image: &Option<String>) -> (r: SandboxPath)
    ensures
        match r {
            SandboxPath::Container { image: i } => enabled && i@ == signal(
                text::opt(*image),
                "alpine:latest"@,
            ),
            SandboxPath::Host => !enabled,
        },
{
    if enabled {
        SandboxPath::Container { image: signal_or(image, "alpine:latest") }
    } else {
        SandboxPath::Host
    }
}

// ---- replanning ----------------------------------------------------------

/// What is to be done about a task that keeps failing.
#[derive(Debug, Clone, Copy, PartialEq, Eq, Structural)]
pub enum Directive {
    EscalateModel,
    Replan,
    EscalateToUser,
}

/// The slug of a directive.
pub open spec fn directive_slug(d: Directive) -> Seq<char> {
    match d {
        Directive::EscalateModel => "escalate_model"@,
        Directive::Replan => "replan"@,
        Directive::EscalateToUser => "escalate_to_user"@,
    }
}

/// The name of a model within a text in small letters, or the text itself.
pub open spec fn tier_in(lowered: Seq<char>) -> Seq<char> {
    if text::holds_text(lowered, "haiku"@) {
        "haiku"@
    } else if text::holds_text(lowered, "sonnet"@) {
        "sonnet"@
    } else if text::holds_text(lowered, "opus"@) {
        "opus"@
    } else {
        lowered
    }
}

/// The name of a model within a text in small letters, or the text itself.
pub fn tier_of(lowered: &str) -> (r: String)
    ensures
        r@ == tier_in(lowered@),
{
    if holds_part(lowered, "haiku") {
        owned("haiku")
    } else if holds_part(lowered, "sonnet") {
        owned("sonnet")
    } else if holds_part(lowered, "opus") {
        owned("opus")
    } else {
        owned(lowered)
    }
}

/// The name of a model as it is journaled.
pub fn canonical_tier_for_log(model_tier: &str) -> (r: String)
    ensures
        r@ == tier_in(text::lowercase(text::trim(model_tier@))),
{
    let bare = trimmed(model_tier);
    let lowered = to_lowercase(bare.as_str());
    tier_of(lowered.as_str())
}

/// What is journaled of a directive.
#[derive(Debug)]
pub struct ReplanLogRecord {
    pub directive: String,
    pub reason: String,
    pub reached_tier: String,
    pub replan_count: usize,
    pub recorded_at: i64,
}

/// What to journal of a directive.
pub fn replan_record(
    directive: Directive,
    reason: &str,
    model_tier: &str,
    replan_count: usize,
    now: i64,
) -> (r: ReplanLogRecord)
    ensures
        r.directive@ == directive_slug(directive),
        r.reason@ == reason@,
        r.reached_tier@ == tier_in(text::lowercase(text::trim(model_tier@))),
        r.replan_count == replan_count,
        r.recorded_at == now,
{
    let slug = match directive {
        Directive::EscalateModel => "escalate_model",
        Directive::Replan => "replan",
        Directive::EscalateToUser => "escalate_to_user",
    };
    ReplanLogRecord {
        directive: owned(slug),
        reason: owned(reason),
        reached_tier: canonical_tier_for_log(model_tier),
        replan_count,
        recorded_at: now,
    }
}

/// Whether there is anything in the input of `replan handoff` to parse; without
/// anything, every field is empty.
pub fn has_input(raw: &str) -> (r: bool)
    ensures
        r == (text::trim(raw@).len() > 0),
{
    !blank(raw)
}

// ---- the loop ------------------------------------------------------------

/// How one iteration of the loop exits: 1 where it stops with failing tests.
pub fn loop_exit(success: bool, stop: bool) -> (r: i32)
    ensures
        r == (if !success && stop {
            1i32
        } else {
            0i32
        }),
{
    if !success && stop {
        1
    } else {
        0
    }
}

/// That there is no such kind of module.
pub fn unknown_module(module: &str) -> (r: String)
    ensures
        r@ == text::around("unknown module '"@, module@, "'; use server, client, or e2e"@),
{
    put_around("unknown module '", module, "'; use server, client, or e2e")
}

// ---- consensus -----------------------------------------------------------

/// The threshold that counts, as the bits of a double: the one on the command
/// line, or the one in the input, or the configured one.
pub fn effective_threshold(flag: Option<u64>, input: Option<u64>, configured: u64) -> (r: u64)
    ensures
        r == (match flag {
            Some(t) => t,
            None => match input {
                Some(t) => t,
                None => configured,
            },
        }),
{
    match flag {
        Some(t) => t,
        None => match input {
            Some(t) => t,
            None => configured,
        },
    }
}

/// How `consensus plan` exits: 0 where the work is fanned out.
pub fn plan_exit(plan: &Plan) -> (r: i32)
    ensures
        r == (if plan.enabled {
            0i32
        } else {
            1i32
        }),
{
    if plan.enabled {
        0
    } else {
        1
    }
}

/// How `consensus vote` exits: 1 where the vote is escalated.
pub fn vote_exit(c: &Consensus) -> (r: i32)
    ensures
        r == (if c.escalate {
            1i32
        } else {
            0i32
        }),
{
    if c.escalate {
        1
    } else {
        0
    }
}

// ---- escalations ---------------------------------------------------------

/// The recommended option of a question, in words, if it exists.
pub open spec fn recommendation(e: Escalation) -> Seq<char> {
    if e.recommended < e.options@.len() {
        text::around(" (recommend: "@, e.options@[e.recommended as int]@, ")"@)
    } else {
        ""@
    }
}

/// The two lines on a question.
pub open spec fn question_lines(e: Escalation) -> Seq<Seq<char>> {
    seq![
        "  "@ + e.id@ + "  ["@ + e.task@ + "] "@ + e.question@ + recommendation(e),
        "        options: "@ + text::joined(text::texts(e.options@), " | "@),
    ]
}

/// The lines on all questions.
pub open spec fn all_question_lines(list: Seq<Escalation>) -> Seq<Seq<char>>
    decreases list.len(),
{
    if list.len() == 0 {
        Seq::empty()
    } else {
        all_question_lines(list.drop_last()) + question_lines(list.last())
    }
}

/// What is said of the open questions of a run.
pub open spec fn open_text(run: Seq<char>, open: Seq<Escalation>) -> Seq<Seq<char>> {
    if open.len() == 0 {
        seq![text::around("No open escalations for run "@, run, "."@)]
    } else {
        seq![text::around("Open escalations for run "@, run, ":"@)] + all_question_lines(open)
    }
}

fn question_line(e: &Escalation) -> (r: String)
    ensures
        r@ == question_lines(*e)[0],
{
    let mut r = owned("  ");
    r.push_str(e.id.as_str());
    r.push_str("  [");
    r.push_str(e.task.as_str());
    r.push_str("] ");
    r.push_str(e.question.as_str());
    let recommended = if e.recommended < e.options.len() {
        put_around(" (recommend: ", e.options[e.recommended].as_str(), ")")
    } else {
        owned("")
    };
    r.push_str(recommended.as_str());
    r
}

/// What to say of the open questions of a run, line by line.
pub fn open_lines(run: &str, open: &Vec<Escalation>) -> (r: Vec<String>)
    ensures
        text::texts(r@) == open_text(run@, open@),
{
    let mut out: Vec<String> = Vec::new();
    if open.len() == 0 {
        out.push(put_around("No open escalations for run ", run, "."));
        assert(text::texts(out@) =~= open_text(run@, open@));
        return out;
    }
    out.push(put_around("Open escalations for run ", run, ":"));
    let ghost head = seq![text::around("Open escalations for run "@, run@, ":"@)];
    assert(text::texts(out@) =~= head + all_question_lines(open@.take(0)));
    let mut i: usize = 0;
    while i < open.len()
        invariant
            open@.len() > 0,
            head == seq![text::around("Open escalations for run "@, run@, ":"@)],
            i <= open@.len(),
            text::texts(out@) == head + all_question_lines(open@.take(i as int)),
        decreases open@.len() - i,
    {
        let ghost upto = open@.take(i as int + 1);
        assert(upto.drop_last() =~= open@.take(i as int));
        assert(upto.last() == open@[i as int]);
        let ghost before = text::texts(out@);
        out.push(question_line(&open[i]));
        let mut line = owned("        options: ");
        let options = join(&open[i].options, " | ");
        line.push_str(options.as_str());
        out.push(line);
        assert(text::texts(out@) =~= before + question_lines(open@[i as int]));
        assert(before + question_lines(open@[i as int]) =~= head + (all_question_lines(
            open@.take(i as int),
        ) + question_lines(open@[i as int])));
        i += 1;
    }
    assert(open@.take(i as int) =~= open@);
    out
}

/// That there is no such question.
pub fn no_escalation(id: &str) -> (r: String)
    ensures
        r@ == text::around("condukt: no escalation with id '"@, id@, "'"@),
{
    put_around("condukt: no escalation with id '", id, "'")
}

// ---- worktrees -----------------------------------------------------------

/// What is said of a branch that could not be deleted with its worktree.
pub fn undeleted_line(branch: &str) -> (r: String)
    ensures
        r@ == text::around(
            "condukt: worktree removed but branch '"@,
            branch@,
            "' remains — it has unmerged commits. Merge or force-delete it manually."@,
        ),
{
    put_around(
        "condukt: worktree removed but branch '",
        branch,
        "' remains — it has unmerged commits. Merge or force-delete it manually.",
    )
}

/// What is said of an orphaned worktree, removed or not.
pub fn orphan_line(path: &str, removed: bool) -> (r: String)
    ensures
        r@ == (if removed {
            "removed orphan "@ + path@
        } else {
            "orphan (pass --remove to delete): "@ + path@
        }),
{
    let mut r = if removed {
        owned("removed orphan ")
    } else {
        owned("orphan (pass --remove to delete): ")
    };
    r.push_str(path);
    r
}

/// The line of a worktree in a list.
pub fn worktree_line(path: &str, branch: &Option<String>) -> (r: String)
    ensures
        r@ == path@ + "\t"@ + signal(text::opt(*branch), "-"@),
{
    let mut r = owned(path);
    r.push_str("\t");
    let b = signal_or(branch, "-");
    r.push_str(b.as_str());
    r
}

// ---- sessions and configuration ------------------------------------------

/// The session id in the environment, unless it is empty.
pub fn session_from(raw: &Option<String>) -> (r: Option<String>)
    ensures
        text::opt(r) == (match text::opt(*raw) {
            Some(s) => if s.len() == 0 {
                None
            } else {
                Some(s)
            },
            None => None,
        }),
{
    match raw {
        Some(s) => {
            if s.as_str().is_empty() {
                None
            } else {
                Some(s.clone())
            }
        },
        None => None,
    }
}

/// The session of a claim: the one that is named, or that of the environment.
pub fn claim_session(named: &Option<String>, env: &Option<String>) -> (r: Option<String>)
    ensures
        text::opt(r) == (if named is Some {
            text::opt(*named)
        } else {
            match text::opt(*env) {
                Some(s) => if s.len() == 0 {
                    None
                } else {
                    Some(s)
                },
                None => None,
            }
        }),
{
    if named.is_some() {
        copy_opt(named)
    } else {
        session_from(env)
    }
}

/// The configuration that `init` writes.
pub open spec fn config_text(
    worktree_base: Seq<char>,
    default_branch: Seq<char>,
    max_parallel: nat,
) -> Seq<char> {
    "# condukt configuration\n# Where worktrees are created (MUST be outside any repo).\nworktree_base = \""@
        + worktree_base
        + "\"\n# Branch completed work merges back into.\ndefault_branch = \""@ + default_branch
        + "\"\n# Soft cap on concurrent workers (advisory; the skill honors it).\nmax_parallel = "@
        + text::dec(max_parallel)
        + "\n# Globs that force a touching task to run serially (never in parallel),\n# e.g. [\"**/models.py\", \"**/migrations/**\", \"docs/glossary.md\"].\nshared_globs = []\n\n# Command `condukt state test` runs (via `sh -c`, from the repo root).\n# Omit to auto-detect (cargo test / npm test / pytest).\n# [test]\n# command = \"cargo test\"\n\n# Loop feature: commands for `condukt loop` test-fix cycles.\n# Use with /condukt-loop skill to run test→fix→test until all tests pass.\n#   server cycle: deploy → test\n#   client cycle: build  → test\n#   e2e    cycle: build  → deploy → test\n# [loop]\n# build_command  = \"npm run build\"\n# deploy_command = \"kubectl rollout restart deployment/api && kubectl rollout status deployment/api\"\n# max_iters      = 10\n\n# Multi-sample self-consistency (COST GUARD: opt-in, OFF by default).\n# When enabled, a high-risk task is implemented N independent times,\n# each verified, and a majority vote picks the winner; low agreement\n# escalates the task to opus. N-sample generation is N x the cost, so\n# keep this off unless you want fan-out consensus on risky tasks. A\n# per-task `condukt consensus plan --risk high` forces fan-out even when\n# enabled=false. samples is clamped to a ceiling of 5.\n# [consensus]\n# enabled   = false\n# samples   = 3\n# threshold = 0.5\n"@
}

/// The configuration to write for a new user.
pub fn default_config(worktree_base: &str, default_branch: &str, max_parallel: usize) -> (r: String)
    ensures
        r@ == config_text(worktree_base@, default_branch@, max_parallel as nat),
{
    let mut r = owned(
        "# condukt configuration\n# Where worktrees are created (MUST be outside any repo).\nworktree_base = \"",
    );
    r.push_str(worktree_base);
    r.push_str("\"\n# Branch completed work merges back into.\ndefault_branch = \"");
    r.push_str(default_branch);
    r.push_str(
        "\"\n# Soft cap on concurrent workers (advisory; the skill honors it).\nmax_parallel = ",
    );
    let n = dec_usize(max_parallel);
    r.push_str(n.as_str());
    r.push_str(
        "\n# Globs that force a touching task to run serially (never in parallel),\n# e.g. [\"**/models.py\", \"**/migrations/**\", \"docs/glossary.md\"].\nshared_globs = []\n\n# Command `condukt state test` runs (via `sh -c`, from the repo root).\n# Omit to auto-detect (cargo test / npm test / pytest).\n# [test]\n# command = \"cargo test\"\n\n# Loop feature: commands for `condukt loop` test-fix cycles.\n# Use with /condukt-loop skill to run test→fix→test until all tests pass.\n#   server cycle: deploy → test\n#   client cycle: build  → test\n#   e2e    cycle: build  → deploy → test\n# [loop]\n# build_command  = \"npm run build\"\n# deploy_command = \"kubectl rollout restart deployment/api && kubectl rollout status deployment/api\"\n# max_iters      = 10\n\n# Multi-sample self-consistency (COST GUARD: opt-in, OFF by default).\n# When enabled, a high-risk task is implemented N independent times,\n# each verified, and a majority vote picks the winner; low agreement\n# escalates the task to opus. N-sample generation is N x the cost, so\n# keep this off unless you want fan-out consensus on risky tasks. A\n# per-task `condukt consensus plan --risk high` forces fan-out even when\n# enabled=false. samples is clamped to a ceiling of 5.\n# [consensus]\n# enabled   = false\n# samples   = 3\n# threshold = 0.5\n",
    );
    r
}

// ---- laws ----------------------------------------------------------------

/// A journaled model is one of the known names, or a text in which none of them
/// stands.
pub proof fn a_tier_is_collapsed(lowered: Seq<char>)
    ensures
        tier_in(lowered) == "haiku"@ || tier_in(lowered) == "sonnet"@ || tier_in(lowered) == "opus"@
            || (tier_in(lowered) == lowered && !text::holds_text(lowered, "haiku"@)
            && !text::holds_text(lowered, "sonnet"@) && !text::holds_text(lowered, "opus"@)),
{
}

/// A model is known by the tier its name holds, the smallest first where it
/// holds more than one.
pub proof fn a_tier_is_known_by_its_name(lowered: Seq<char>)
    ensures
        text::holds_text(lowered, "haiku"@) ==> tier_in(lowered) == "haiku"@,
        !text::holds_text(lowered, "haiku"@) && text::holds_text(lowered, "sonnet"@) ==> tier_in(
            lowered,
        ) == "sonnet"@,
        !text::holds_text(lowered, "haiku"@) && !text::holds_text(lowered, "sonnet"@)
            && text::holds_text(lowered, "opus"@) ==> tier_in(lowered) == "opus"@,
        !text::holds_text(lowered, "haiku"@) && !text::holds_text(lowered, "sonnet"@)
            && !text::holds_text(lowered, "opus"@) ==> tier_in(lowered) == lowered,
{
}

/// What was given stands, and only what was not is filled in.
pub proof fn a_given_signal_stands(given: Option<Seq<char>>, otherwise: Seq<char>)
    ensures
        given is Some ==> signal(given, otherwise) == given->0,
        given is None ==> signal(given, otherwise) == otherwise,
{
}

/// Each open question is told in two lines, in the order of the list, after one
/// that says whose they are; where none is open, one line says so.
pub proof fn every_open_question_is_told(run: Seq<char>, open: Seq<Escalation>, i: int)
    ensures
        all_question_lines(open).len() == 2 * open.len(),
        0 <= i < open.len() ==> all_question_lines(open)[2 * i] == question_lines(open[i])[0]
            && all_question_lines(open)[2 * i + 1] == question_lines(open[i])[1],
        open.len() == 0 ==> open_text(run, open).len() == 1,
        open.len() > 0 ==> open_text(run, open).len() == 1 + 2 * open.len() && open_text(
            run,
            open,
        ).skip(1) == all_question_lines(open),
    decreases open.len(),
{
    if open.len() > 0 {
        let before = open.drop_last();
        every_open_question_is_told(run, before, i);
        if 0 <= i < before.len() {
            assert(before[i] == open[i]);
        }
        assert(open_text(run, open).skip(1) =~= all_question_lines(open));
    }
}

/// The option that is recommended is named where there is one.
pub proof fn only_an_option_is_recommended(e: Escalation)
    ensures
        e.recommended >= e.options@.len() ==> recommendation(e).len() == 0,
        e.recommended < e.options@.len() ==> text::stands_at(
            recommendation(e),
            e.options@[e.recommended as int]@,
            13,
        ),
{
    reveal_strlit("");
    reveal_strlit(" (recommend: ");
    reveal_strlit(")");
    if e.recommended < e.options@.len() {
        let o = e.options@[e.recommended as int]@;
        assert(recommendation(e).subrange(13, 13 + o.len() as int) =~= o);
    }
}

/// Every verdict of the run policy and every directive has a word of its own.
pub proof fn verdicts_and_directives_are_worded_apart(v: RunPolicyVerdict, d: Directive)
    ensures
        policy_slug(v) == "verify_only"@ <==> v == RunPolicyVerdict::VerifyOnly,
        policy_slug(v) == "escalate_docker"@ <==> v == RunPolicyVerdict::EscalateDocker,
        policy_slug(v) == "escalate_ship"@ <==> v == RunPolicyVerdict::EscalateShip,
        policy_slug(v) == "ask_human"@ <==> v == RunPolicyVerdict::AskHuman,
        directive_slug(d) == "escalate_model"@ <==> d == Directive::EscalateModel,
        directive_slug(d) == "replan"@ <==> d == Directive::Replan,
        directive_slug(d) == "escalate_to_user"@ <==> d == Directive::EscalateToUser,
{
    reveal_strlit("verify_only");
    reveal_strlit("escalate_docker");
    reveal_strlit("escalate_ship");
    reveal_strlit("ask_human");
    reveal_strlit("escalate_model");
    reveal_strlit("replan");
    reveal_strlit("escalate_to_user");
    assert("verify_only"@.len() == 11 && "escalate_docker"@.len() == 15);
    assert("escalate_ship"@.len() == 13 && "ask_human"@.len() == 9);
    assert("escalate_model"@.len() == 14 && "replan"@.len() == 6);
    assert("escalate_to_user"@.len() == 16);
}

} // verus!
