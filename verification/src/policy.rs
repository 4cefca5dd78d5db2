//! The graded autonomy policy: what is done with a decision once it is graded.

use vstd::prelude::*;

use crate::gatelog;
use crate::gatelog::{answer_outcome, AnswerOutcome, GateDecision};
use crate::json;
use crate::text;
use crate::text::{copy_texts, dec_usize, join, owned};

verus! {

/// A grade of risk, reversibility or confidence.
#[derive(Debug, Clone, Copy, PartialEq, Eq, Structural)]
pub enum Level {
    Low,
    Medium,
    High,
}

/// What the policy says of a decision.
#[derive(Debug, Clone, Copy, PartialEq, Eq, Structural)]
pub enum Decision {
    /// Go ahead.
    Auto,
    /// Ask a human.
    Escalate,
    /// Do not go on.
    Block,
}

/// The word for a decision.
pub open spec fn decision_word(d: Decision) -> Seq<char> {
    match d {
        Decision::Auto => "auto"@,
        Decision::Escalate => "escalate"@,
        Decision::Block => "block"@,
    }
}

/// The exit code that goes with a decision.
pub open spec fn decision_code(d: Decision) -> i32 {
    match d {
        Decision::Auto => 0,
        Decision::Escalate => 2,
        Decision::Block => 3,
    }
}

/// What `policy decide` prints and how it exits.
pub fn decide_said(d: Decision) -> (r: (&'static str, i32))
    ensures
        r.0@ == decision_word(d),
        r.1 == decision_code(d),
{
    match d {
        Decision::Auto => ("auto", 0),
        Decision::Escalate => ("escalate", 2),
        Decision::Block => ("block", 3),
    }
}

/// The three grades, where each could be read.
pub fn parse_policy_levels(
    risk: Option<Level>,
    reversible: Option<Level>,
    confidence: Option<Level>,
) -> (r: Result<(Level, Level, Level), &'static str>)
    ensures
        match r {
            Ok((a, b, c)) => risk == Some(a) && reversible == Some(b) && confidence == Some(c),
            Err(why) => (risk is None || reversible is None || confidence is None) && why@
                == "condukt: --risk/--reversible/--confidence must each be low|medium|high"@,
        },
{
    match (risk, reversible, confidence) {
        (Some(a), Some(b), Some(c)) => Ok((a, b, c)),
        _ => Err("condukt: --risk/--reversible/--confidence must each be low|medium|high"),
    }
}

// ---- calibrated confidence -----------------------------------------------

/// What came of asking for a calibrated confidence.
#[derive(Debug, Clone, Copy, PartialEq, Eq, Structural)]
pub enum Probe {
    /// The router could not be started.
    NotStarted,
    /// It ran: whether it exited with 0, and the grade of the score that it
    /// printed, where that is a finite number.
    Finished { exit_ok: bool, level: Option<Level> },
}

/// The task is described well enough to ask about it.
pub open spec fn is_described(
    title: Option<Seq<char>>,
    files: Seq<Seq<char>>,
    class: Option<Seq<char>>,
) -> bool {
    title is Some || files.len() > 0 || class is Some
}

/// The arguments of the question: the files in one argument, the class, and the
/// title last.
pub open spec fn question(
    title: Option<Seq<char>>,
    files: Seq<Seq<char>>,
    class: Option<Seq<char>>,
) -> Seq<Seq<char>> {
    seq!["confidence"@] + (if files.len() > 0 {
        seq!["--files"@, text::joined(files, ","@)]
    } else {
        Seq::empty()
    }) + (match class {
        Some(c) => seq!["--class"@, c],
        None => Seq::empty(),
    }) + (match title {
        Some(t) => seq![t],
        None => Seq::empty(),
    })
}

/// The arguments with which to ask for a calibrated confidence, where the task
/// is described at all.
pub fn confidence_args(title: &Option<String>, files: &Vec<String>, class: &Option<String>) -> (r:
    Option<Vec<String>>)
    ensures
        r is Some <==> is_described(text::opt(*title), text::texts(files@), text::opt(*class)),
        r matches Some(args) ==> text::texts(args@) == question(
            text::opt(*title),
            text::texts(files@),
            text::opt(*class),
        ),
{
    assert(text::texts(files@).len() == files@.len());
    if title.is_none() && files.len() == 0 && class.is_none() {
        return None;
    }
    let mut args: Vec<String> = Vec::new();
    args.push(owned("confidence"));
    let ghost first = seq!["confidence"@];
    assert(text::texts(args@) =~= first);
    if files.len() > 0 {
        args.push(owned("--files"));
        args.push(join(files, ","));
    }
    let ghost second = first + (if files@.len() > 0 {
        seq!["--files"@, text::joined(text::texts(files@), ","@)]
    } else {
        Seq::empty()
    });
    assert(text::texts(args@) =~= second);
    match class {
        Some(c) => {
            args.push(owned("--class"));
            args.push(c.clone());
        },
        None => {},
    }
    let ghost third = second + (match text::opt(*class) {
        Some(c) => seq!["--class"@, c],
        None => Seq::empty(),
    });
    assert(text::texts(args@) =~= third);
    match title {
        Some(t) => {
            args.push(t.clone());
        },
        None => {},
    }
    assert(text::texts(args@) =~= question(
        text::opt(*title),
        text::texts(files@),
        text::opt(*class),
    ));
    Some(args)
}

/// The calibrated confidence, if there is one: the task is described, the router
/// ran well, and it printed a usable score.
pub open spec fn calibrated(described: bool, probe: Probe) -> Option<Level> {
    match probe {
        Probe::Finished { exit_ok, level } => if described && exit_ok {
            level
        } else {
            None
        },
        Probe::NotStarted => None,
    }
}

/// The calibrated confidence, if there is one. Without any description of the
/// task the probe is not looked at.
pub fn calibrated_confidence(
    title: &Option<String>,
    files: &Vec<String>,
    class: &Option<String>,
    probe: Probe,
) -> (r: Option<Level>)
    ensures
        r == calibrated(
            is_described(text::opt(*title), text::texts(files@), text::opt(*class)),
            probe,
        ),
{
    assert(text::texts(files@).len() == files@.len());
    if title.is_none() && files.len() == 0 && class.is_none() {
        return None;
    }
    match probe {
        Probe::Finished { exit_ok: true, level } => level,
        _ => None,
    }
}

/// The confidence that counts: the calibrated one where there is one, and the
/// stated one otherwise.
pub fn effective_confidence(stated: Level, calibrated: Option<Level>) -> (r: Level)
    ensures
        r == (match calibrated {
            Some(c) => c,
            None => stated,
        }),
{
    match calibrated {
        Some(c) => c,
        None => stated,
    }
}

// ---- deciding ------------------------------------------------------------

/// A decision to be graded: the grades as they were read, and what is known of
/// the task that it is about.
#[derive(Debug)]
pub struct Graded {
    pub risk: Option<Level>,
    pub reversible: Option<Level>,
    pub confidence: Option<Level>,
    pub title: Option<String>,
    pub files: Vec<String>,
    pub class: Option<String>,
    /// What came of asking for a calibrated confidence.
    pub probe: Probe,
}

/// Every grade could be read.
pub open spec fn is_readable(g: Graded) -> bool {
    g.risk is Some && g.reversible is Some && g.confidence is Some
}

/// The confidence that counts for a graded decision.
pub open spec fn confidence_of(g: Graded) -> Level {
    match calibrated(
        is_described(text::opt(g.title), text::texts(g.files@), text::opt(g.class)),
        g.probe,
    ) {
        Some(c) => c,
        None => g.confidence->0,
    }
}

/// What the policy says of a graded decision, or that a grade could not be read.
/// `decide` is the policy.
pub fn grade<D: Fn(Level, Level, Level) -> Decision>(g: &Graded, decide: &D) -> (r: Result<
    Decision,
    &'static str,
>)
    requires
        forall|a: Level, b: Level, c: Level| call_requires(*decide, (a, b, c)),
    ensures
        r is Ok <==> is_readable(*g),
        r matches Ok(d) ==> call_ensures(
            *decide,
            (g.risk->0, g.reversible->0, confidence_of(*g)),
            d,
        ),
        r matches Err(why) ==> why@
            == "condukt: --risk/--reversible/--confidence must each be low|medium|high"@,
{
    let (risk, reversible, stated) = match parse_policy_levels(
        g.risk,
        g.reversible,
        g.confidence,
    ) {
        Ok(levels) => levels,
        Err(why) => return Err(why),
    };
    let calibrated = calibrated_confidence(&g.title, &g.files, &g.class, g.probe);
    Ok(decide(risk, reversible, effective_confidence(stated, calibrated)))
}

// ---- answering -----------------------------------------------------------

/// What answering a question leads to.
#[derive(Debug)]
pub struct Answer {
    /// What is journaled of the decision.
    pub record: Option<GateDecision>,
    pub stdout: Option<String>,
    pub stderr: Option<String>,
    pub exit_code: i32,
}

/// The line for a question that was answered.
pub open spec fn answered_line(chosen: Seq<char>, index: nat) -> Seq<char> {
    "{\"answered\":true,\"policy\":\"auto\",\"chosen\":"@ + json::spelled(chosen)
        + ",\"recommend_index\":"@ + text::dec(index) + "}"@
}

/// The complaint about a recommendation that is none of the options.
pub open spec fn no_option_line(recommend: nat, options: nat) -> Seq<char> {
    "condukt: --recommend index "@ + text::dec(recommend) + " has no matching --option (got "@
        + text::dec(options) + " option(s))"@
}

/// The record of one consultation.
fn consulted(
    decision: Decision,
    question: &str,
    options: &Vec<String>,
    recommend: usize,
    chosen: String,
    now: i64,
) -> (r: GateDecision)
    ensures
        r.question@ == question@,
        text::texts(r.options@) == text::texts(options@),
        r.recommend_index == recommend,
        r.chosen == chosen,
        r.policy@ == decision_word(decision),
        r.created_at == now,
{
    let (word, _) = decide_said(decision);
    GateDecision {
        question: owned(question),
        options: copy_texts(options),
        recommend_index: recommend,
        chosen,
        policy: owned(word),
        created_at: now,
    }
}

/// Answers a question under a decision of the policy. Every decision is
/// journaled, with an empty choice where nothing was chosen: a question that went
/// to a human and one that was never asked must not look alike. A recommendation
/// that is none of the options is a rejected input, and no decision.
pub fn answer(
    decision: Decision,
    question: &str,
    options: &Vec<String>,
    recommend: usize,
    now: i64,
) -> (r: Answer)
    ensures
        r.exit_code == (match decision {
            Decision::Auto => if recommend < options@.len() {
                0i32
            } else {
                1i32
            },
            Decision::Escalate => 2i32,
            Decision::Block => 3i32,
        }),
        text::opt(r.stdout) == (match decision {
            Decision::Auto => if recommend < options@.len() {
                Some(answered_line(options@[recommend as int]@, recommend as nat))
            } else {
                None
            },
            Decision::Escalate => Some("{\"answered\":false,\"policy\":\"escalate\"}"@),
            Decision::Block => Some("{\"answered\":false,\"policy\":\"block\"}"@),
        }),
        text::opt(r.stderr) == (if decision == Decision::Auto && recommend >= options@.len() {
            Some(no_option_line(recommend as nat, options@.len()))
        } else {
            None
        }),
        r.record is Some <==> !(decision == Decision::Auto && recommend >= options@.len()),
        r.record matches Some(d) ==> {
            &&& d.question@ == question@
            &&& text::texts(d.options@) == text::texts(options@)
            &&& d.recommend_index == recommend
            &&& d.chosen@ == (if decision == Decision::Auto {
                options@[recommend as int]@
            } else {
                Seq::empty()
            })
            &&& d.policy@ == decision_word(decision)
            &&& d.created_at == now
        },
        r.exit_code == 0 <==> decision == Decision::Auto && recommend < options@.len(),
        r.exit_code == 1 <==> decision == Decision::Auto && recommend >= options@.len(),
        r.exit_code == 2 <==> decision == Decision::Escalate,
        r.exit_code == 3 <==> decision == Decision::Block,
        r.record is None <==> r.exit_code == 1,
        r.stderr is Some <==> r.exit_code == 1,
{
    let outcome = answer_outcome(decision, options.as_slice(), recommend);
    let exit_code = outcome.exit_code();
    match outcome {
        AnswerOutcome::Answered { chosen, recommend_index } => {
            let mut line = owned("{\"answered\":true,\"policy\":\"auto\",\"chosen\":");
            let spelt = json::spell(chosen.as_str());
            line.push_str(spelt.as_str());
            line.push_str(",\"recommend_index\":");
            let index = dec_usize(recommend_index);
            line.push_str(index.as_str());
            line.push_str("}");
            let record = consulted(decision, question, options, recommend_index, chosen, now);
            Answer { record: Some(record), stdout: Some(line), stderr: None, exit_code }
        },
        AnswerOutcome::Escalate => Answer {
            record: Some(
                consulted(decision, question, options, recommend, String::new(), now),
            ),
            stdout: Some(owned("{\"answered\":false,\"policy\":\"escalate\"}")),
            stderr: None,
            exit_code,
        },
        AnswerOutcome::Block => Answer {
            record: Some(
                consulted(decision, question, options, recommend, String::new(), now),
            ),
            stdout: Some(owned("{\"answered\":false,\"policy\":\"block\"}")),
            stderr: None,
            exit_code,
        },
        AnswerOutcome::Invalid => {
            let mut why = owned("condukt: --recommend index ");
            let index = dec_usize(recommend);
            why.push_str(index.as_str());
            why.push_str(" has no matching --option (got ");
            let count = dec_usize(options.len());
            why.push_str(count.as_str());
            why.push_str(" option(s))");
            Answer { record: None, stdout: None, stderr: Some(why), exit_code }
        },
    }
}

// ---- autonomy ------------------------------------------------------------

/// The confidence of a routine decision: high where the run is autonomous, and
/// low otherwise.
pub open spec fn routine_confidence(autonomous: bool) -> Level {
    if autonomous {
        Level::High
    } else {
        Level::Low
    }
}

/// The confidence of a routine decision.
pub fn autonomy_confidence(autonomous: bool) -> (r: Level)
    ensures
        r == routine_confidence(autonomous),
{
    if autonomous {
        Level::High
    } else {
        Level::Low
    }
}

/// Whether a routine decision, of medium risk and medium reversibility, goes
/// ahead by itself. `decide` is the policy.
pub fn policy_is_autonomous<D: Fn(Level, Level, Level) -> Decision>(
    autonomous: bool,
    decide: &D,
) -> (r: bool)
    requires
        forall|a: Level, b: Level, c: Level| call_requires(*decide, (a, b, c)),
    ensures
        exists|d: Decision| #[trigger]
            call_ensures(
                *decide,
                (Level::Medium, Level::Medium, routine_confidence(autonomous)),
                d,
            ) && r == (d == Decision::Auto),
{
    let decision = decide(Level::Medium, Level::Medium, autonomy_confidence(autonomous));
    matches!(decision, Decision::Auto)
}

/// What a check of a mode prints, and how it exits: 0 where the mode is on.
pub fn mode_said(name: &str, on: bool) -> (r: (String, i32))
    ensures
        r.0@ == "{\""@ + name@ + "\":"@ + (if on {
            "true"@
        } else {
            "false"@
        }) + "}"@,
        r.1 == (if on {
            0i32
        } else {
            1i32
        }),
{
    let mut line = owned("{\"");
    line.push_str(name);
    line.push_str("\":");
    if on {
        line.push_str("true");
    } else {
        line.push_str("false");
    }
    line.push_str("}");
    (
        line,
        if on {
            0
        } else {
            1
        },
    )
}

// ---- laws ----------------------------------------------------------------

/// The exit code tells the decisions apart, and none of them is that of a
/// question that could not be read.
pub proof fn exit_codes_tell_decisions_apart(a: Decision, b: Decision)
    ensures
        decision_code(a) == decision_code(b) <==> a == b,
        decision_code(a) != gatelog::exit_code_of(AnswerOutcome::Invalid),
{
}

/// Without any description of the task, nothing that the router says counts.
pub proof fn an_undescribed_task_is_not_calibrated(probe: Probe)
    ensures
        calibrated(is_described(None, Seq::empty(), None), probe) is None,
{
}

/// Going on by itself is zero; asking and refusing each have a code and a word of
/// their own.
pub proof fn each_decision_has_its_code_and_word(d: Decision)
    ensures
        decision_code(d) == 0 <==> d == Decision::Auto,
        decision_code(d) == 2 <==> d == Decision::Escalate,
        decision_code(d) == 3 <==> d == Decision::Block,
        decision_word(d) == "auto"@ <==> d == Decision::Auto,
        decision_word(d) == "escalate"@ <==> d == Decision::Escalate,
        decision_word(d) == "block"@ <==> d == Decision::Block,
{
    reveal_strlit("auto");
    reveal_strlit("escalate");
    reveal_strlit("block");
    assert("auto"@.len() == 4 && "escalate"@.len() == 8 && "block"@.len() == 5);
}

/// A task is described by anything that is said of it.
pub proof fn anything_said_describes_a_task(
    title: Option<Seq<char>>,
    files: Seq<Seq<char>>,
    class: Option<Seq<char>>,
)
    ensures
        !is_described(title, files, class) <==> title is None && files.len() == 0 && class is None,
{
}

/// A probe calibrates exactly where the task is described, the probe ended well
/// and it named a level; and what it named then stands for what was stated.
pub proof fn a_probe_that_ended_well_calibrates(described: bool, probe: Probe, g: Graded)
    ensures
        calibrated(described, probe) is Some ==> described && probe is Finished,
        probe matches Probe::Finished { exit_ok, level } ==> (described && exit_ok ==> calibrated(
            described,
            probe,
        ) == level) && (!described || !exit_ok ==> calibrated(described, probe) is None),
        probe is NotStarted ==> calibrated(described, probe) is None,
        g.probe is NotStarted && g.confidence is Some ==> confidence_of(g) == g.confidence->0,
        g.title is None && g.files@.len() == 0 && g.class is None && g.confidence is Some
            ==> confidence_of(g) == g.confidence->0,
        g.title is Some || g.files@.len() > 0 || g.class is Some ==> (g.probe matches
            Probe::Finished { exit_ok, level } ==> (exit_ok && level is Some ==> confidence_of(g)
            == level->0)),
        is_readable(g) <==> !(g.risk is None || g.reversible is None || g.confidence is None),
{
}

/// What the router is asked names the files, the class and the title that were
/// given, in this order, and nothing for what was not.
pub proof fn the_question_names_what_is_known(
    title: Option<Seq<char>>,
    files: Seq<Seq<char>>,
    class: Option<Seq<char>>,
)
    ensures
        ({
            let q = question(title, files, class);
            let with_files = if files.len() > 0 {
                2int
            } else {
                0
            };
            let with_class = if class is Some {
                2int
            } else {
                0
            };
            &&& q[0] == "confidence"@
            &&& q.len() == 1 + with_files + with_class + (if title is Some {
                1int
            } else {
                0
            })
            &&& files.len() > 0 ==> q[1] == "--files"@ && q[2] == text::joined(files, ","@)
            &&& class is Some ==> q[1 + with_files] == "--class"@ && q[2 + with_files] == class->0
            &&& title is Some ==> q.last() == title->0
        }),
{
}

/// A routine is sure of itself exactly where it may act by itself.
pub proof fn only_an_autonomous_routine_is_sure(autonomous: bool)
    ensures
        routine_confidence(autonomous) == Level::High <==> autonomous,
        routine_confidence(autonomous) == Level::Low <==> !autonomous,
{
}

/// An answer names what was chosen and its place; an option that is not there is
/// told with its place and how many there are.
pub proof fn an_answer_names_the_choice(chosen: Seq<char>, index: nat, options: nat)
    ensures
        text::holds_text(answered_line(chosen, index), json::spelled(chosen)),
        text::holds_text(answered_line(chosen, index), text::dec(index)),
        text::holds_text(no_option_line(index, options), text::dec(index)),
        text::holds_text(no_option_line(index, options), text::dec(options)),
{
    let a = "{\"answered\":true,\"policy\":\"auto\",\"chosen\":"@;
    let b = ",\"recommend_index\":"@;
    let n = text::dec(index);
    let m = text::dec(options);
    let s = json::spelled(chosen);
    text::a_text_holds_its_parts(a, s, b + n + "}"@, s);
    assert(answered_line(chosen, index) =~= a + s + (b + n + "}"@));
    text::a_text_holds_its_parts(a + s + b, n, "}"@, n);
    let c = "condukt: --recommend index "@;
    let d = " has no matching --option (got "@;
    let e = " option(s))"@;
    text::a_text_holds_its_parts(c, n, d + m + e, n);
    assert(no_option_line(index, options) =~= c + n + (d + m + e));
    text::a_text_holds_its_parts(c + n + d, m, e, m);
}

} // verus!
