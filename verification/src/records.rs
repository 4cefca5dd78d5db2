//! Handing the outcome of finished runs to the router that learns from them.

use vstd::prelude::*;

use crate::state::{RunState, RunView};
use crate::text;
use crate::text::{dec_usize, join, owned};

verus! {

/// The outcome of one task.
#[derive(Debug)]
pub struct RecordSpec {
    pub title: String,
    pub files: Vec<String>,
    pub class: String,
    pub model: String,
    pub status: String,
    /// What the task cost, as it is written on the command line.
    pub cost_usd: String,
    pub done_criteria: Option<String>,
}

/// The arguments that hand over the outcome of a task.
pub open spec fn args_for(s: RecordSpec, fingerprint: Seq<char>) -> Seq<Seq<char>> {
    seq![
        "record"@,
        "--title"@,
        s.title@,
        "--files"@,
        text::joined(text::texts(s.files@), ","@),
        "--class"@,
        s.class@,
        "--model"@,
        s.model@,
        "--status"@,
        s.status@,
        "--cost"@,
        s.cost_usd@,
    ] + (match s.done_criteria {
        Some(dc) => seq!["--done-criteria"@, dc@],
        None => Seq::empty(),
    }) + (if fingerprint.len() == 0 {
        Seq::empty()
    } else {
        seq!["--skill-fingerprint"@, fingerprint]
    })
}

/// The arguments that hand over the outcome of a task.
pub fn record_args(s: &RecordSpec, fingerprint: &str) -> (r: Vec<String>)
    ensures
        text::texts(r@) == args_for(*s, fingerprint@),
{
    let mut args: Vec<String> = Vec::new();
    args.push(owned("record"));
    args.push(owned("--title"));
    args.push(s.title.clone());
    args.push(owned("--files"));
    args.push(join(&s.files, ","));
    args.push(owned("--class"));
    args.push(s.class.clone());
    args.push(owned("--model"));
    args.push(s.model.clone());
    args.push(owned("--status"));
    args.push(s.status.clone());
    args.push(owned("--cost"));
    args.push(s.cost_usd.clone());
    let ghost first = args_for(*s, fingerprint@).take(13);
    assert(text::texts(args@) =~= first);
    match &s.done_criteria {
        Some(dc) => {
            args.push(owned("--done-criteria"));
            args.push(dc.clone());
        },
        None => {},
    }
    let ghost second = first + (match text::opt(s.done_criteria) {
        Some(dc) => seq!["--done-criteria"@, dc],
        None => Seq::empty(),
    });
    assert(text::texts(args@) =~= second);
    if !fingerprint.is_empty() {
        args.push(owned("--skill-fingerprint"));
        args.push(owned(fingerprint));
    }
    assert(text::texts(args@) =~= args_for(*s, fingerprint@));
    args
}

/// The runs whose outcome is handed over: the one that is named, or all of them,
/// if that is asked for.
pub fn runs_to_record(run: Option<&str>, all: bool, known: Vec<String>) -> (r: Result<
    Vec<String>,
    &'static str,
>)
    ensures
        match r {
            Ok(ids) => match run {
                Some(one) => text::texts(ids@) == seq![one@],
                None => all && text::texts(ids@) == text::texts(known@),
            },
            Err(why) => run is None && !all && why@ == "record-run requires --run <id> or --all"@,
        },
{
    match run {
        Some(one) => {
            let mut ids: Vec<String> = Vec::new();
            ids.push(owned(one));
            assert(text::texts(ids@) =~= seq![one@]);
            Ok(ids)
        },
        None => {
            if all {
                Ok(known)
            } else {
                Err("record-run requires --run <id> or --all")
            }
        },
    }
}

/// How many outcomes of how many runs were handed over so far.
#[derive(Debug, Clone, Copy, PartialEq, Eq, Structural)]
pub struct Sweep {
    pub emitted: usize,
    pub recorded_runs: usize,
}

impl Sweep {
    /// Nothing so far.
    pub fn new() -> (r: Sweep)
        ensures
            r.emitted == 0,
            r.recorded_runs == 0,
    {
        Sweep { emitted: 0, recorded_runs: 0 }
    }
}

/// The arguments for every task of a run: nothing where the run could not be
/// loaded with its plan, is not settled, or was recorded before.
pub fn run_args(specs: Option<&Vec<RecordSpec>>, fingerprint: &str) -> (r: Vec<Vec<String>>)
    ensures
        r@.map_values(|a: Vec<String>| text::texts(a@)) == (match specs {
            Some(list) => list@.map_values(|s: RecordSpec| args_for(s, fingerprint@)),
            None => Seq::empty(),
        }),
{
    let mut out: Vec<Vec<String>> = Vec::new();
    let list = match specs {
        Some(list) => list,
        None => {
            assert(out@.map_values(|a: Vec<String>| text::texts(a@)) =~= Seq::empty());
            return out;
        },
    };
    let mut i: usize = 0;
    while i < list.len()
        invariant
            i <= list@.len(),
            out@.len() == i,
            forall|k: int|
                0 <= k < i ==> text::texts((#[trigger] out@[k])@) == args_for(
                    list@[k],
                    fingerprint@,
                ),
        decreases list@.len() - i,
    {
        out.push(record_args(&list[i], fingerprint));
        i += 1;
    }
    assert(out@.map_values(|a: Vec<String>| text::texts(a@)) =~= list@.map_values(
        |s: RecordSpec| args_for(s, fingerprint@),
    ));
    out
}

/// How many of the first `n` went through.
pub open spec fn went_through(sent: Seq<bool>, n: nat) -> nat
    decreases n,
{
    if n == 0 {
        0
    } else {
        went_through(sent, (n - 1) as nat) + (if sent[n - 1] {
            1nat
        } else {
            0nat
        })
    }
}

/// Notes that a run was handed over: it is marked, so that it is not handed over
/// again, whether or not every outcome went through.
pub fn note_recorded(sweep: &mut Sweep, rs: &mut RunState, sent: &Vec<bool>, now: i64)
    requires
        old(sweep).emitted + sent@.len() <= usize::MAX,
        old(sweep).recorded_runs < usize::MAX,
    ensures
        final(sweep).emitted == old(sweep).emitted + went_through(sent@, sent@.len()),
        final(sweep).recorded_runs == old(sweep).recorded_runs + 1,
        final(rs)@ == (RunView { recorded_at: Some(now), ..old(rs)@ }),
        final(rs)@.tasks == old(rs)@.tasks,
        final(rs)@.recorded_at == Some(now),
        final(sweep).emitted <= old(sweep).emitted + sent@.len(),
{
    let mut count: usize = 0;
    let mut i: usize = 0;
    while i < sent.len()
        invariant
            i <= sent@.len(),
            count == went_through(sent@, i as nat),
            count <= i,
        decreases sent@.len() - i,
    {
        if sent[i] {
            count += 1;
        }
        i += 1;
    }
    sweep.emitted = sweep.emitted + count;
    sweep.recorded_runs = sweep.recorded_runs + 1;
    rs.recorded_at = Some(now);
}

/// What is said of a sweep: nothing where nothing was handed over.
pub open spec fn sweep_text(s: Sweep) -> Option<Seq<char>> {
    if s.emitted == 0 {
        None
    } else {
        Some(
            "condukt: recorded "@ + text::dec(s.emitted as nat) + " outcome(s) from "@ + text::dec(
                s.recorded_runs as nat,
            ) + " run(s) to fugu-router"@,
        )
    }
}

/// What to say of a sweep.
pub fn sweep_line(s: &Sweep) -> (r: Option<String>)
    ensures
        text::opt(r) == sweep_text(*s),
{
    if s.emitted == 0 {
        return None;
    }
    let mut r = owned("condukt: recorded ");
    let n = dec_usize(s.emitted);
    r.push_str(n.as_str());
    r.push_str(" outcome(s) from ");
    let runs = dec_usize(s.recorded_runs);
    r.push_str(runs.as_str());
    r.push_str(" run(s) to fugu-router");
    Some(r)
}

// ---- laws ----------------------------------------------------------------

/// No more outcomes go through than were sent.
pub proof fn no_outcome_is_made_up(sent: Seq<bool>, n: nat)
    ensures
        went_through(sent, n) <= n,
    decreases n,
{
    if n > 0 {
        no_outcome_is_made_up(sent, (n - 1) as nat);
    }
}

/// What is sent is counted one by one.
pub proof fn what_went_through_is_counted(sent: Seq<bool>, n: nat)
    requires
        n <= sent.len(),
    ensures
        went_through(sent, n) == sent.take(n as int).filter(|ok: bool| ok).len(),
    decreases n,
{
    reveal(Seq::filter);
    if n > 0 {
        what_went_through_is_counted(sent, (n - 1) as nat);
        assert(sent.take(n as int).drop_last() =~= sent.take(n - 1));
        assert(sent.take(n as int).last() == sent[n - 1]);
    }
}

/// A record says of a task what the task is: each value right after its own
/// name, the criteria and the fingerprint only where there are any.
pub proof fn a_record_names_every_value(s: RecordSpec, fingerprint: Seq<char>)
    ensures
        ({
            let args = args_for(s, fingerprint);
            let with_criteria = if s.done_criteria is Some {
                2int
            } else {
                0
            };
            &&& args[0] == "record"@
            &&& args[1] == "--title"@ && args[2] == s.title@
            &&& args[3] == "--files"@ && args[4] == text::joined(text::texts(s.files@), ","@)
            &&& args[5] == "--class"@ && args[6] == s.class@
            &&& args[7] == "--model"@ && args[8] == s.model@
            &&& args[9] == "--status"@ && args[10] == s.status@
            &&& args[11] == "--cost"@ && args[12] == s.cost_usd@
            &&& s.done_criteria is Some ==> args[13] == "--done-criteria"@ && args[14]
                == s.done_criteria->0@
            &&& fingerprint.len() > 0 ==> args[13 + with_criteria] == "--skill-fingerprint"@
                && args[14 + with_criteria] == fingerprint
            &&& args.len() == 13 + with_criteria + (if fingerprint.len() > 0 {
                2int
            } else {
                0
            })
        }),
{
}

/// A sweep is told of exactly where it sent something.
pub proof fn an_empty_sweep_is_silent(s: Sweep)
    ensures
        sweep_text(s) is None <==> s.emitted == 0,
{
}

} // verus!
