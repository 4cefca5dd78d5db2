//! The audit trail of the gates: what each consultation came to.

use vstd::prelude::*;

use crate::policy::Decision;
use crate::text;
use crate::text::{blank, dec_usize, line_list, owned};

verus! {

/// One consultation of the policy, whatever came of it.
#[derive(Debug, PartialEq, Eq)]
pub struct GateDecision {
    pub question: String,
    pub options: Vec<String>,
    /// Which option was recommended.
    pub recommend_index: usize,
    /// The option that was chosen, and nothing where none was.
    pub chosen: String,
    /// `auto`, `escalate` or `block`.
    pub policy: String,
    pub created_at: i64,
}

/// What a question comes to under a policy decision.
#[derive(Debug, PartialEq, Eq)]
pub enum AnswerOutcome {
    /// The question is answered with the recommended option.
    Answered { chosen: String, recommend_index: usize },
    /// A human is to be asked.
    Escalate,
    /// The caller must not go on.
    Block,
    /// The recommended option does not exist.
    Invalid,
}

/// The exit code that goes with an outcome.
pub open spec fn exit_code_of(o: AnswerOutcome) -> i32 {
    match o {
        AnswerOutcome::Answered { .. } => 0,
        AnswerOutcome::Escalate => 2,
        AnswerOutcome::Block => 3,
        AnswerOutcome::Invalid => 1,
    }
}

impl AnswerOutcome {
    /// The exit code: 0 answered, 2 escalate, 3 block, 1 invalid.
    pub fn exit_code(&self) -> (r: i32)
        ensures
            r == exit_code_of(*self),
    {
        match self {
            AnswerOutcome::Answered { .. } => 0,
            AnswerOutcome::Escalate => 2,
            AnswerOutcome::Block => 3,
            AnswerOutcome::Invalid => 1,
        }
    }
}

/// Answers a question under a policy decision. Only `Auto` answers, and only
/// with an option that exists.
pub fn answer_outcome(decision: Decision, options: &[String], recommend_index: usize) -> (r:
    AnswerOutcome)
    ensures
        match decision {
            Decision::Auto => if recommend_index < options@.len() {
                r matches AnswerOutcome::Answered { chosen, recommend_index: at } && chosen@
                    == options@[recommend_index as int]@ && at == recommend_index
            } else {
                r == AnswerOutcome::Invalid
            },
            Decision::Escalate => r == AnswerOutcome::Escalate,
            Decision::Block => r == AnswerOutcome::Block,
        },
        r is Answered ==> decision == Decision::Auto && recommend_index < options@.len(),
        r == AnswerOutcome::Invalid <==> decision == Decision::Auto && recommend_index
            >= options@.len(),
        r == AnswerOutcome::Escalate <==> decision == Decision::Escalate,
        r == AnswerOutcome::Block <==> decision == Decision::Block,
{
    match decision {
        Decision::Auto => {
            if recommend_index < options.len() {
                AnswerOutcome::Answered { chosen: options[recommend_index].clone(), recommend_index }
            } else {
                AnswerOutcome::Invalid
            }
        },
        Decision::Escalate => AnswerOutcome::Escalate,
        Decision::Block => AnswerOutcome::Block,
    }
}

// ---- where the logs lie --------------------------------------------------

/// The path of a file in a directory.
pub open spec fn path_in(dir: Seq<char>, name: Seq<char>) -> Seq<char> {
    if dir.len() == 0 {
        name
    } else if dir.last() == '/' {
        dir + name
    } else {
        dir + "/"@ + name
    }
}

/// The path of the file `name` in `dir`.
pub fn join_path(dir: &str, name: &str) -> (r: String)
    ensures
        r@ == path_in(dir@, name@),
{
    let chars = text::to_chars(dir);
    if chars.len() == 0 {
        return owned(name);
    }
    let mut r = owned(dir);
    if chars[chars.len() - 1] != '/' {
        r.push_str("/");
    }
    r.push_str(name);
    r
}

/// The log of policy consultations in `dir`.
pub fn decisions_path(dir: &str) -> (r: String)
    ensures
        r@ == path_in(dir@, "gate-decisions.jsonl"@),
{
    join_path(dir, "gate-decisions.jsonl")
}

/// The log of circuit verdicts of a run in `dir`. The run id is already safe as
/// a file name.
pub fn circuit_log_path(dir: &str, safe_run_id: &str) -> (r: String)
    ensures
        r@ == path_in(dir@, safe_run_id@ + ".circuit-log.jsonl"@),
{
    let mut name = owned(safe_run_id);
    name.push_str(".circuit-log.jsonl");
    join_path(dir, name.as_str())
}

/// The log of gate verdicts of a run in `dir`. The run id is already safe as a
/// file name.
pub fn gate_exec_log_path(dir: &str, safe_run_id: &str) -> (r: String)
    ensures
        r@ == path_in(dir@, safe_run_id@ + ".gate-exec-log.jsonl"@),
{
    let mut name = owned(safe_run_id);
    name.push_str(".gate-exec-log.jsonl");
    join_path(dir, name.as_str())
}

/// The log of diff-risk outcomes in `dir`.
pub fn diffrisk_outcomes_path(dir: &str) -> (r: String)
    ensures
        r@ == path_in(dir@, "diffrisk-outcomes.jsonl"@),
{
    join_path(dir, "diffrisk-outcomes.jsonl")
}

// ---- the records ---------------------------------------------------------

/// One recorded circuit verdict.
#[derive(Debug, PartialEq, Eq)]
pub struct CircuitRecord {
    /// `continue` or `trip`.
    pub verdict: String,
    pub reason: Option<String>,
    pub streak: u32,
    pub streak_cap: u32,
    pub budget_over_cap: bool,
    pub idle_secs: i64,
    pub idle_ttl_secs: i64,
    pub recorded_at: i64,
}

/// One recorded gate verdict.
#[derive(Debug, PartialEq, Eq)]
pub struct GateExecRecord {
    /// `auto_exec` or `escalate`.
    pub verdict: String,
    pub task: String,
    /// `low`, `medium` or `high`, where the risk was graded.
    pub risk: Option<String>,
    pub reversible: Option<bool>,
    pub policy_is_auto: bool,
    pub recorded_at: i64,
}

/// How an inspection of a diff after its execution ended.
#[must_use]
#[derive(Debug, Clone, Copy, PartialEq, Eq, Structural)]
pub enum DiffRiskOutcome {
    /// The task had no worktree: nothing was inspected.
    NoWorktree,
    /// The worktree gave no diff: nothing was inspected.
    NoDiff,
    /// The diff was inspected and its risk is not high.
    ClassifiedNotHigh,
    /// The diff was inspected and its high risk was recorded.
    Recorded,
    /// The risk could not be found out.
    Undetermined,
    /// The risk is high and recording it failed.
    RecordFailed,
}

/// The slug of an outcome.
pub open spec fn slug_of(o: DiffRiskOutcome) -> Seq<char> {
    match o {
        DiffRiskOutcome::NoWorktree => "no-worktree"@,
        DiffRiskOutcome::NoDiff => "no-diff"@,
        DiffRiskOutcome::ClassifiedNotHigh => "classified-not-high"@,
        DiffRiskOutcome::Recorded => "recorded"@,
        DiffRiskOutcome::Undetermined => "undetermined"@,
        DiffRiskOutcome::RecordFailed => "record-failed"@,
    }
}

impl DiffRiskOutcome {
    /// A stable slug.
    pub fn as_str(self) -> (r: &'static str)
        ensures
            r@ == slug_of(self),
    {
        match self {
            DiffRiskOutcome::NoWorktree => "no-worktree",
            DiffRiskOutcome::NoDiff => "no-diff",
            DiffRiskOutcome::ClassifiedNotHigh => "classified-not-high",
            DiffRiskOutcome::Recorded => "recorded",
            DiffRiskOutcome::Undetermined => "undetermined",
            DiffRiskOutcome::RecordFailed => "record-failed",
        }
    }

    /// Whether the diff was looked at.
    pub fn inspected(self) -> (r: bool)
        ensures
            r == !(self == DiffRiskOutcome::NoWorktree || self == DiffRiskOutcome::NoDiff),
    {
        match self {
            DiffRiskOutcome::NoWorktree => false,
            DiffRiskOutcome::NoDiff => false,
            _ => true,
        }
    }
}

/// One recorded inspection of a diff.
#[derive(Debug, PartialEq, Eq)]
pub struct DiffRiskRecord {
    pub outcome: String,
    pub inspected: bool,
    pub run_id: String,
    pub task_id: String,
    /// How many symbols changed, where the diff was looked at.
    pub changed_symbols: Option<usize>,
    /// How many places call them, where the diff was looked at.
    pub caller_sites: Option<usize>,
    pub recorded_at: i64,
}

// ---- writing and reading a log -------------------------------------------

/// A text that can stand on a line of its own in a log.
pub open spec fn is_entry(line: Seq<char>) -> bool {
    &&& !line.contains('\n')
    &&& line.len() > 0 ==> line.last() != '\r'
    &&& text::trim(line).len() > 0
}

/// What is put at the end of a log for one record.
pub fn journal_entry(line: &str) -> (r: String)
    ensures
        r@ == line@ + "\n"@,
{
    let mut r = owned(line);
    r.push_str("\n");
    r
}

/// A log of these records, each on a line of its own.
pub open spec fn log_of(entries: Seq<Seq<char>>) -> Seq<char>
    decreases entries.len(),
{
    if entries.len() == 0 {
        Seq::empty()
    } else {
        log_of(entries.drop_last()) + entries.last() + "\n"@
    }
}

/// The lines of a log that are not blank.
pub open spec fn filled_lines(rows: Seq<Seq<char>>) -> Seq<Seq<char>>
    decreases rows.len(),
{
    if rows.len() == 0 {
        Seq::empty()
    } else if text::trim(rows.last()).len() > 0 {
        filled_lines(rows.drop_last()).push(rows.last())
    } else {
        filled_lines(rows.drop_last())
    }
}

/// The lines of a log that hold a record, in their order.
pub fn journal_lines(log: &str) -> (r: Vec<String>)
    ensures
        text::texts(r@) == filled_lines(text::lines(log@)),
{
    let rows = line_list(log);
    let ghost all = text::texts(rows@);
    let mut out: Vec<String> = Vec::new();
    let mut i: usize = 0;
    assert(text::texts(out@) =~= filled_lines(all.take(0)));
    while i < rows.len()
        invariant
            all == text::texts(rows@),
            i <= rows@.len(),
            text::texts(out@) == filled_lines(all.take(i as int)),
        decreases rows@.len() - i,
    {
        assert(all.take(i as int + 1).drop_last() =~= all.take(i as int));
        assert(all.take(i as int + 1).last() == rows@[i as int]@);
        if !blank(rows[i].as_str()) {
            let ghost before = text::texts(out@);
            out.push(rows[i].clone());
            assert(text::texts(out@) =~= before.push(rows@[i as int]@));
        }
        i += 1;
    }
    assert(all.take(i as int) =~= all);
    out
}

/// The records of a log, and how many lines are not among them.
#[derive(Debug)]
pub struct Loaded<T> {
    pub records: Vec<T>,
    pub skipped: usize,
}

/// The records among the lines, each of which was read or could not be.
pub open spec fn readable<T>(rows: Seq<Option<T>>) -> Seq<T>
    decreases rows.len(),
{
    if rows.len() == 0 {
        Seq::empty()
    } else {
        match rows.last() {
            Some(t) => readable(rows.drop_last()).push(t),
            None => readable(rows.drop_last()),
        }
    }
}

/// Keeps the records that could be read, in their order, and counts the lines
/// that could not, so that a short history is not taken for a whole one.
pub fn load_journal<T>(rows: Vec<Option<T>>) -> (r: Loaded<T>)
    ensures
        r.records@ == readable(rows@),
        r.skipped == rows@.len() - r.records@.len(),
{
    let ghost all = rows@;
    let mut rest = rows;
    let total = rest.len();
    let mut back: Vec<T> = Vec::new();
    let mut skipped: usize = 0;
    assert(all.take(all.len() as int) =~= all);
    assert(readable(all) + back@.reverse() =~= readable(all));
    while rest.len() > 0
        invariant
            rest@.len() <= all.len(),
            rest@ == all.take(rest@.len() as int),
            readable(all) == readable(rest@) + back@.reverse(),
            total == all.len(),
            skipped + back@.len() + rest@.len() == total,
        decreases rest@.len(),
    {
        let ghost before = rest@;
        let ghost held = back@;
        let row = rest.pop();
        assert(rest@ =~= before.drop_last());
        assert(rest@ =~= all.take(rest@.len() as int));
        match row {
            Some(Some(t)) => {
                back.push(t);
                assert(before.last() == Some(t));
                assert(back@.reverse() =~= seq![t] + held.reverse());
                assert(readable(rest@).push(t) + held.reverse() =~= readable(rest@)
                    + back@.reverse());
            },
            _ => {
                skipped += 1;
            },
        }
    }
    let mut records: Vec<T> = Vec::new();
    let ghost whole = back@;
    assert(readable(rest@) =~= Seq::<T>::empty());
    assert(readable(all) =~= whole.reverse());
    assert(records@ =~= whole.reverse().take(0));
    while back.len() > 0
        invariant
            back@.len() <= whole.len(),
            back@ == whole.take(back@.len() as int),
            records@ == whole.reverse().take(whole.len() - back@.len()),
        decreases back@.len(),
    {
        let ghost before = back@;
        match back.pop() {
            Some(t) => {
                let ghost done = records@;
                records.push(t);
                assert(back@ =~= whole.take(back@.len() as int));
                assert(whole.reverse()[done.len() as int] == t);
                assert(records@ =~= whole.reverse().take(whole.len() - back@.len()));
            },
            None => {},
        }
    }
    assert(records@ =~= whole.reverse());
    Loaded { records, skipped }
}

/// What is said on the side where lines of a log could not be read.
pub open spec fn incomplete_text(sink: Seq<char>, skipped: nat, path: Seq<char>) -> Seq<char> {
    "warning: "@ + sink + ": skipped "@ + text::dec(skipped) + " unreadable line(s) in "@ + path
        + " — the history shown is incomplete"@
}

/// The warning that a history is incomplete, where it is.
pub fn incomplete_warning(sink: &str, skipped: usize, path: &str) -> (r: Option<String>)
    ensures
        skipped == 0 ==> r is None,
        skipped != 0 ==> r is Some && r->0@ == incomplete_text(sink@, skipped as nat, path@),
{
    if skipped == 0 {
        return None;
    }
    let mut w = owned("warning: ");
    w.push_str(sink);
    w.push_str(": skipped ");
    w.push_str(dec_usize(skipped).as_str());
    w.push_str(" unreadable line(s) in ");
    w.push_str(path);
    w.push_str(" — the history shown is incomplete");
    Some(w)
}

/// The policy consultations of a log.
pub fn load_decisions(rows: Vec<Option<GateDecision>>) -> (r: Loaded<GateDecision>)
    ensures
        r.records@ == readable(rows@),
        r.skipped == rows@.len() - r.records@.len(),
{
    load_journal(rows)
}

/// The circuit verdicts of a log.
pub fn load_circuit_records(rows: Vec<Option<CircuitRecord>>) -> (r: Loaded<CircuitRecord>)
    ensures
        r.records@ == readable(rows@),
        r.skipped == rows@.len() - r.records@.len(),
{
    load_journal(rows)
}

/// The verdicts on gated tasks of a log.
pub fn load_gate_exec_records(rows: Vec<Option<GateExecRecord>>) -> (r: Loaded<GateExecRecord>)
    ensures
        r.records@ == readable(rows@),
        r.skipped == rows@.len() - r.records@.len(),
{
    load_journal(rows)
}

/// The inspections of a log.
pub fn load_diffrisk_outcomes(rows: Vec<Option<DiffRiskRecord>>) -> (r: Loaded<DiffRiskRecord>)
    ensures
        r.records@ == readable(rows@),
        r.skipped == rows@.len() - r.records@.len(),
{
    load_journal(rows)
}

// ---- laws ----------------------------------------------------------------

/// What is appended to a log is read back behind everything that was read back
/// before.
pub proof fn an_appended_record_is_read_back(log: Seq<char>, line: Seq<char>)
    requires
        text::ends_a_line(log),
        is_entry(line),
    ensures
        filled_lines(text::lines(log + line + "\n"@)) == filled_lines(text::lines(log)).push(line),
{
    text::lemma_line_is_added(log, line);
    assert(text::lines(log).push(line).drop_last() =~= text::lines(log));
}

/// Records that were appended one after the other are read back whole and in
/// order.
pub proof fn appended_records_are_read_back_in_order(entries: Seq<Seq<char>>)
    requires
        forall|i: int| 0 <= i < entries.len() ==> is_entry(#[trigger] entries[i]),
    ensures
        filled_lines(text::lines(log_of(entries))) == entries,
        text::ends_a_line(log_of(entries)),
    decreases entries.len(),
{
    if entries.len() == 0 {
        assert(text::lines(log_of(entries)) =~= Seq::<Seq<char>>::empty());
    } else {
        let init = entries.drop_last();
        assert forall|i: int| 0 <= i < init.len() implies is_entry(#[trigger] init[i]) by {
            assert(init[i] == entries[i]);
        }
        appended_records_are_read_back_in_order(init);
        assert(is_entry(entries[entries.len() - 1]));
        an_appended_record_is_read_back(log_of(init), entries.last());
        text::lemma_line_is_added(log_of(init), entries.last());
        assert(init.push(entries.last()) =~= entries);
    }
}

/// A log of which every line can be read is read back whole and in order.
pub proof fn a_readable_log_is_read_back_whole<T>(written: Seq<T>)
    ensures
        readable(written.map_values(|t: T| Some(t))) == written,
    decreases written.len(),
{
    let rows = written.map_values(|t: T| Some(t));
    if written.len() > 0 {
        assert(rows.drop_last() =~= written.drop_last().map_values(|t: T| Some(t)));
        a_readable_log_is_read_back_whole(written.drop_last());
        assert(written =~= written.drop_last().push(written.last()));
    } else {
        assert(readable(rows) =~= written);
    }
}

/// Each outcome of an answer has its own exit code, and only an answer is zero.
pub proof fn exit_codes_tell_answers_apart(o: AnswerOutcome)
    ensures
        exit_code_of(o) == 0 <==> o is Answered,
        exit_code_of(o) == 1 <==> o is Invalid,
        exit_code_of(o) == 2 <==> o is Escalate,
        exit_code_of(o) == 3 <==> o is Block,
{
}

/// A path ends with the name, after the directory and exactly one separator
/// where there is a directory.
pub proof fn a_path_is_the_directory_and_the_name(dir: Seq<char>, name: Seq<char>)
    ensures
        dir.len() == 0 ==> path_in(dir, name) == name,
        dir.len() > 0 && dir.last() == '/' ==> path_in(dir, name) == dir + name,
        dir.len() > 0 && dir.last() != '/' ==> path_in(dir, name) == dir + seq!['/'] + name,
        path_in(dir, name).skip(path_in(dir, name).len() - name.len()) == name,
{
    reveal_strlit("/");
    assert("/"@ =~= seq!['/']);
    assert(path_in(dir, name).skip(path_in(dir, name).len() - name.len()) =~= name);
}

/// The rows of a log are its lines that say something, in their order.
pub proof fn blank_rows_are_no_records(rows: Seq<Seq<char>>)
    ensures
        filled_lines(rows) == rows.filter(|row: Seq<char>| text::trim(row).len() > 0),
    decreases rows.len(),
{
    reveal(Seq::filter);
    if rows.len() > 0 {
        blank_rows_are_no_records(rows.drop_last());
    }
    assert(filled_lines(rows) =~= rows.filter(|row: Seq<char>| text::trim(row).len() > 0));
}

/// Every row that could be read is a record, in its order, and no other is.
pub proof fn every_readable_row_is_a_record<T>(rows: Seq<Option<T>>)
    ensures
        readable(rows) == rows.filter(|row: Option<T>| row is Some).map_values(
            |row: Option<T>| row->0,
        ),
    decreases rows.len(),
{
    reveal(Seq::filter);
    let read = |row: Option<T>| row is Some;
    let take = |row: Option<T>| row->0;
    if rows.len() > 0 {
        let before = rows.drop_last();
        every_readable_row_is_a_record(before);
        assert(before.filter(read).push(rows.last()).map_values(take) =~= before.filter(
            read,
        ).map_values(take).push(take(rows.last())));
    }
    assert(readable(rows) =~= rows.filter(read).map_values(take));
}

/// The words for what became of a look at a change are all different.
pub proof fn outcomes_are_worded_apart(a: DiffRiskOutcome, b: DiffRiskOutcome)
    ensures
        slug_of(a) == slug_of(b) ==> a == b,
{
    reveal_strlit("no-worktree");
    reveal_strlit("no-diff");
    reveal_strlit("classified-not-high");
    reveal_strlit("recorded");
    reveal_strlit("undetermined");
    reveal_strlit("record-failed");
    assert("no-worktree"@.len() == 11);
    assert("no-diff"@.len() == 7);
    assert("classified-not-high"@.len() == 19);
    assert("recorded"@.len() == 8);
    assert("undetermined"@.len() == 12);
    assert("record-failed"@.len() == 13);
}

/// A warning about a log names it and tells how many lines were left out.
pub proof fn a_warning_names_the_log(sink: Seq<char>, skipped: nat, path: Seq<char>)
    ensures
        text::holds_text(incomplete_text(sink, skipped, path), sink),
        text::holds_text(incomplete_text(sink, skipped, path), text::dec(skipped)),
        text::holds_text(incomplete_text(sink, skipped, path), path),
{
    let whole = incomplete_text(sink, skipped, path);
    let a = "warning: "@;
    let b = ": skipped "@;
    let c = " unreadable line(s) in "@;
    let d = " — the history shown is incomplete"@;
    let n = text::dec(skipped);
    text::a_text_holds_its_parts(a, sink, b + n + c + path + d, sink);
    assert(whole =~= a + sink + (b + n + c + path + d));
    text::a_text_holds_its_parts(a + sink + b, n, c + path + d, n);
    assert(whole =~= (a + sink + b) + n + (c + path + d));
    text::a_text_holds_its_parts(a + sink + b + n + c, path, d, path);
}

} // verus!
