//! The last step of a run: opening a pull request, and merging it when its
//! checks are green.
//!
//! Nothing is opened or merged without being told to. Whatever goes wrong leaves
//! the work as local commits.

use vstd::prelude::*;

use crate::text;
use crate::text::{last_chars_of, line_list, owned, put_around, starts, trimmed};

verus! {

/// What is known of the checks of a pull request.
#[derive(Debug, PartialEq, Eq)]
pub enum CiVerdict {
    /// They are still running.
    Wait,
    /// They failed.
    Reenter,
    /// They are green.
    Merge,
    /// Nothing is known of them, and why.
    DegradedLocalOnly { reason: String },
}

/// A merge happens: the checks are green, and it was asked for.
pub open spec fn merges(verdict: CiVerdict, execute: bool) -> bool {
    verdict is Merge && execute
}

/// Whether to merge.
pub fn should_merge(verdict: &CiVerdict, execute: bool) -> (r: bool)
    ensures
        r == merges(*verdict, execute),
{
    match verdict {
        CiVerdict::Merge => execute,
        _ => false,
    }
}

/// What is said of a pull request. `merged` is what came of the merge, where one
/// was tried.
pub open spec fn poll_text(
    verdict: CiVerdict,
    execute: bool,
    pr: Seq<char>,
    branch: Seq<char>,
    default_branch: Seq<char>,
    merged: Result<(), Seq<char>>,
) -> Seq<char> {
    match verdict {
        CiVerdict::Merge => if execute {
            match merged {
                Ok(_) => text::around("CI green: merged '"@, branch, "' into '"@) + default_branch + "'."@,
                Err(e) => text::around("CI green but merge of '"@, branch, "' into '"@) + default_branch
                    + "' failed; left work as local commits (fail-soft): "@ + e,
            }
        } else {
            text::around("CI green: would merge '"@, branch, "' into '"@) + default_branch
                + "' (dry-run; pass --execute to merge)."@
        },
        CiVerdict::Wait => text::around("CI still running for '"@, pr, "': waiting (no merge)."@),
        CiVerdict::Reenter => text::around(
            "CI failed for '"@,
            pr,
            "': re-enter the worker to fix it (no merge)."@,
        ),
        CiVerdict::DegradedLocalOnly { reason } => text::around(
            "CI status unavailable for '"@,
            pr,
            "': "@,
        ) + reason@ + "; left work as local commits (no merge)."@,
    }
}

/// What to say of a pull request, given what came of the merge where
/// [`should_merge`] says that one is due.
pub fn poll_line(
    verdict: &CiVerdict,
    execute: bool,
    pr: &str,
    branch: &str,
    default_branch: &str,
    merged: &Result<(), String>,
) -> (r: String)
    ensures
        r@ == poll_text(
            *verdict,
            execute,
            pr@,
            branch@,
            default_branch@,
            match *merged {
                Ok(_) => Ok(()),
                Err(e) => Err(e@),
            },
        ),
{
    match verdict {
        CiVerdict::Merge => {
            if execute {
                match merged {
                    Ok(_) => {
                        let mut r = put_around("CI green: merged '", branch, "' into '");
                        r.push_str(default_branch);
                        r.push_str("'.");
                        r
                    },
                    Err(e) => {
                        let mut r = put_around("CI green but merge of '", branch, "' into '");
                        r.push_str(default_branch);
                        r.push_str("' failed; left work as local commits (fail-soft): ");
                        r.push_str(e.as_str());
                        r
                    },
                }
            } else {
                let mut r = put_around("CI green: would merge '", branch, "' into '");
                r.push_str(default_branch);
                r.push_str("' (dry-run; pass --execute to merge).");
                r
            }
        },
        CiVerdict::Wait => put_around("CI still running for '", pr, "': waiting (no merge)."),
        CiVerdict::Reenter => put_around(
            "CI failed for '",
            pr,
            "': re-enter the worker to fix it (no merge).",
        ),
        CiVerdict::DegradedLocalOnly { reason } => {
            let mut r = put_around("CI status unavailable for '", pr, "': ");
            r.push_str(reason.as_str());
            r.push_str("; left work as local commits (no merge).");
            r
        },
    }
}

// ---- opening -------------------------------------------------------------

/// What came of a pull request.
#[derive(Debug, PartialEq, Eq)]
pub enum PrOutcome {
    /// It could be opened with these arguments.
    Prepared { args: Vec<String> },
    /// It was opened.
    Created { url: String },
    /// The work stays as local commits.
    DegradedLocalOnly { reason: String },
}

pub enum PrView {
    Prepared(Seq<Seq<char>>),
    Created(Seq<char>),
    DegradedLocalOnly(Seq<char>),
}

impl View for PrOutcome {
    type V = PrView;

    open spec fn view(&self) -> PrView {
        match self {
            PrOutcome::Prepared { args } => PrView::Prepared(text::texts(args@)),
            PrOutcome::Created { url } => PrView::Created(url@),
            PrOutcome::DegradedLocalOnly { reason } => PrView::DegradedLocalOnly(reason@),
        }
    }
}

/// The body of a pull request: what was given, or what the file holds, or
/// nothing.
pub fn resolve_body(body: Option<String>, from_file: Option<String>) -> (r: String)
    ensures
        r@ == (match body {
            Some(b) => b@,
            None => match from_file {
                Some(f) => f@,
                None => Seq::empty(),
            },
        }),
{
    match body {
        Some(b) => b,
        None => match from_file {
            Some(f) => f,
            None => String::new(),
        },
    }
}

/// The branch that git says is current: what it printed, where it exited with 0,
/// and nothing otherwise.
pub fn current_branch(asked: Option<(bool, &str)>) -> (r: String)
    ensures
        r@ == (match asked {
            Some((ok, printed)) => if ok {
                text::trim(printed@)
            } else {
                Seq::empty()
            },
            None => Seq::empty(),
        }),
{
    match asked {
        Some((true, printed)) => trimmed(printed),
        _ => String::new(),
    }
}

/// A line that is the address of something.
pub open spec fn is_url(line: Seq<char>) -> bool {
    text::stands_at(text::trim(line), "http://"@, 0) || text::stands_at(
        text::trim(line),
        "https://"@,
        0,
    )
}

/// The last address among the lines.
pub open spec fn last_url(rows: Seq<Seq<char>>) -> Option<Seq<char>>
    decreases rows.len(),
{
    if rows.len() == 0 {
        None
    } else if is_url(rows.last()) {
        Some(text::trim(rows.last()))
    } else {
        last_url(rows.drop_last())
    }
}

/// The address in what `gh pr create` printed: the last line that is one, and
/// everything where none is.
pub open spec fn url_in(stdout: Seq<char>) -> Seq<char> {
    match last_url(text::lines(stdout)) {
        Some(url) => url,
        None => text::trim(stdout),
    }
}

/// The address in what `gh pr create` printed.
pub fn parse_pr_url(stdout: &str) -> (r: String)
    ensures
        r@ == url_in(stdout@),
{
    let rows = line_list(stdout);
    let ghost all = text::texts(rows@);
    let mut n: usize = rows.len();
    assert(all.take(n as int) =~= all);
    while n > 0
        invariant
            all == text::texts(rows@),
            all == text::lines(stdout@),
            n <= rows@.len(),
            last_url(all) == last_url(all.take(n as int)),
        decreases n,
    {
        assert(all.take(n as int).last() == rows@[n - 1]@);
        assert(all.take(n as int).drop_last() =~= all.take(n - 1));
        let line = trimmed(rows[n - 1].as_str());
        if starts(line.as_str(), "http://") || starts(line.as_str(), "https://") {
            return line;
        }
        n -= 1;
    }
    trimmed(stdout)
}

/// The last `max` characters of a text, trimmed.
pub fn stderr_tail(s: &str, max: usize) -> (r: String)
    ensures
        r@ == text::last_chars(text::trim(s@), max as nat),
{
    let t = trimmed(s);
    last_chars_of(t.as_str(), max)
}

/// What came of running `gh pr create`.
#[derive(Debug)]
pub enum GhRun {
    Finished { exit_ok: bool, stdout: String, stderr: String },
    NotStarted { error: String },
}

/// What a run of `gh pr create` comes to.
pub open spec fn created_by(run: GhRun) -> PrView {
    match run {
        GhRun::Finished { exit_ok, stdout, stderr } => if exit_ok {
            PrView::Created(url_in(stdout@))
        } else {
            PrView::DegradedLocalOnly(
                "gh pr create failed; left work as local commits: "@ + text::last_chars(
                    text::trim(stderr@),
                    200,
                ),
            )
        },
        GhRun::NotStarted { error } => PrView::DegradedLocalOnly(
            "gh pr create could not be spawned; left work as local commits: "@ + error@,
        ),
    }
}

/// What a run of `gh pr create` comes to.
pub fn run_gh_create(run: &GhRun) -> (r: PrOutcome)
    ensures
        r@ == created_by(*run),
{
    match run {
        GhRun::Finished { exit_ok, stdout, stderr } => {
            if *exit_ok {
                PrOutcome::Created { url: parse_pr_url(stdout.as_str()) }
            } else {
                let mut reason = owned("gh pr create failed; left work as local commits: ");
                let end = stderr_tail(stderr.as_str(), 200);
                reason.push_str(end.as_str());
                PrOutcome::DegradedLocalOnly { reason }
            }
        },
        GhRun::NotStarted { error } => {
            let mut reason = owned(
                "gh pr create could not be spawned; left work as local commits: ",
            );
            reason.push_str(error.as_str());
            PrOutcome::DegradedLocalOnly { reason }
        },
    }
}

/// Whether to open the pull request: it is prepared, and that was asked for.
pub fn should_create(outcome: &PrOutcome, execute: bool) -> (r: bool)
    ensures
        r == (outcome is Prepared && execute),
{
    match outcome {
        PrOutcome::Prepared { .. } => execute,
        _ => false,
    }
}

/// What came of a pull request in the end. `run` is what came of opening it,
/// where [`should_create`] says that it is due.
pub fn final_outcome(outcome: PrOutcome, execute: bool, run: &GhRun) -> (r: PrOutcome)
    ensures
        r@ == (if outcome is Prepared && execute {
            created_by(*run)
        } else {
            outcome@
        }),
        !execute ==> r@ == outcome@,
        r@ is Created ==> outcome is Created || (execute && (*run matches GhRun::Finished {
            exit_ok,
            ..
        } && exit_ok)),
        r@ is Prepared ==> !execute,
{
    if should_create(&outcome, execute) {
        run_gh_create(run)
    } else {
        outcome
    }
}

// ---- laws ----------------------------------------------------------------

/// Nothing is merged unless the checks are green and it was asked for.
pub proof fn only_green_and_asked_for_is_merged(verdict: CiVerdict, execute: bool)
    ensures
        merges(verdict, execute) ==> verdict is Merge,
        merges(verdict, execute) ==> execute,
{
}

/// What is kept of an error is its end, is never longer than it may be, and is
/// the whole of it where that is no longer.
pub proof fn the_end_of_an_error_is_bounded(s: Seq<char>, max: nat)
    ensures
        text::last_chars(s, max).len() <= max,
        text::last_chars(s, max).is_suffix_of(s),
        s.len() <= max ==> text::last_chars(s, max) == s,
{
}

/// A merge is made exactly where the checks are green and it was asked for.
pub proof fn green_and_asked_for_is_merged(verdict: CiVerdict, execute: bool)
    ensures
        merges(verdict, execute) <==> execute && verdict is Merge,
{
}

/// The address of a request is the last line that is one, trimmed; without such
/// a line, all that was printed, trimmed.
pub proof fn the_last_address_is_taken(rows: Seq<Seq<char>>, stdout: Seq<char>)
    ensures
        last_url(rows) is None <==> forall|i: int|
            0 <= i < rows.len() ==> !text::stands_at(
                text::trim(#[trigger] rows[i]),
                "http://"@,
                0,
            ) && !text::stands_at(text::trim(rows[i]), "https://"@, 0),
        last_url(rows) is Some ==> exists|i: int|
            0 <= i < rows.len() && last_url(rows) == Some(text::trim(#[trigger] rows[i])) && (
            text::stands_at(text::trim(rows[i]), "http://"@, 0) || text::stands_at(
                text::trim(rows[i]),
                "https://"@,
                0,
            )) && forall|j: int|
                i < j < rows.len() ==> !text::stands_at(
                    text::trim(#[trigger] rows[j]),
                    "http://"@,
                    0,
                ) && !text::stands_at(text::trim(rows[j]), "https://"@, 0),
        last_url(text::lines(stdout)) is Some ==> url_in(stdout) == last_url(text::lines(stdout))->0,
        last_url(text::lines(stdout)) is None ==> url_in(stdout) == text::trim(stdout),
    decreases rows.len(),
{
    if rows.len() > 0 {
        let before = rows.drop_last();
        the_last_address_is_taken(before, stdout);
        assert(rows[rows.len() - 1] == rows.last());
        assert(forall|i: int| 0 <= i < before.len() ==> #[trigger] before[i] == rows[i]);
        if is_url(rows.last()) {
            assert(last_url(rows) == Some(text::trim(rows[rows.len() - 1])));
        } else if last_url(before) is Some {
            let i = choose|i: int|
                0 <= i < before.len() && last_url(before) == Some(text::trim(#[trigger] before[i]))
                    && (text::stands_at(text::trim(before[i]), "http://"@, 0) || text::stands_at(
                    text::trim(before[i]),
                    "https://"@,
                    0,
                )) && forall|j: int|
                    i < j < before.len() ==> !text::stands_at(
                        text::trim(#[trigger] before[j]),
                        "http://"@,
                        0,
                    ) && !text::stands_at(text::trim(before[j]), "https://"@, 0);
            assert(rows[i] == before[i]);
            assert forall|j: int| i < j < rows.len() implies !text::stands_at(
                text::trim(#[trigger] rows[j]),
                "http://"@,
                0,
            ) && !text::stands_at(text::trim(rows[j]), "https://"@, 0) by {
                if j < before.len() {
                    assert(before[j] == rows[j]);
                }
            }
        } else {
            assert forall|i: int| 0 <= i < rows.len() implies !text::stands_at(
                text::trim(#[trigger] rows[i]),
                "http://"@,
                0,
            ) && !text::stands_at(text::trim(rows[i]), "https://"@, 0) by {
                if i < before.len() {
                    assert(before[i] == rows[i]);
                }
            }
        }
    }
}

/// A request was created exactly where the tool for it ran and ended well, at the
/// address it printed; otherwise the work is left as it is, and nothing is
/// prepared any more.
pub proof fn only_a_run_that_ended_well_created(run: GhRun)
    ensures
        created_by(run) is Created <==> (run matches GhRun::Finished { exit_ok, .. } && exit_ok),
        created_by(run) is Created ==> created_by(run)->Created_0 == url_in(run->stdout@),
        !(created_by(run) is Created) <==> created_by(run) is DegradedLocalOnly,
        run matches GhRun::Finished { exit_ok, stderr, .. } ==> (!exit_ok ==> text::holds_text(
            created_by(run)->DegradedLocalOnly_0,
            text::last_chars(text::trim(stderr@), 200),
        )),
        run matches GhRun::NotStarted { error } ==> text::holds_text(
            created_by(run)->DegradedLocalOnly_0,
            error@,
        ),
{
    match run {
        GhRun::Finished { exit_ok, stdout, stderr } => {
            if !exit_ok {
                let why = text::last_chars(text::trim(stderr@), 200);
                let a = "gh pr create failed; left work as local commits: "@;
                text::a_text_holds_its_parts(a, why, Seq::empty(), why);
                assert(a + why + Seq::empty() =~= a + why);
            }
        },
        GhRun::NotStarted { error } => {
            let a = "gh pr create could not be spawned; left work as local commits: "@;
            text::a_text_holds_its_parts(a, error@, Seq::empty(), error@);
            assert(a + error@ + Seq::empty() =~= a + error@);
        },
    }
}

/// What is said of a merge names both branches, what is said of a wait names the
/// request, and a failure to merge is told with its reason.
pub proof fn a_poll_names_what_it_is_about(
    verdict: CiVerdict,
    execute: bool,
    pr: Seq<char>,
    branch: Seq<char>,
    default_branch: Seq<char>,
    merged: Result<(), Seq<char>>,
)
    ensures
        ({
            let line = poll_text(verdict, execute, pr, branch, default_branch, merged);
            &&& verdict is Merge ==> text::holds_text(line, branch) && text::holds_text(
                line,
                default_branch,
            )
            &&& verdict is Merge && execute && merged is Err ==> text::holds_text(
                line,
                merged->Err_0,
            )
            &&& !(verdict is Merge) ==> text::holds_text(line, pr)
            &&& verdict is DegradedLocalOnly ==> text::holds_text(
                line,
                verdict->DegradedLocalOnly_reason@,
            )
        }),
{
    let line = poll_text(verdict, execute, pr, branch, default_branch, merged);
    match verdict {
        CiVerdict::Merge => {
            if execute {
                match merged {
                    Ok(_) => {
                        lemma_three_parts(
                            line,
                            "CI green: merged '"@,
                            branch,
                            "' into '"@,
                            default_branch,
                            "'."@,
                            Seq::empty(),
                        );
                    },
                    Err(e) => {
                        lemma_three_parts(
                            line,
                            "CI green but merge of '"@,
                            branch,
                            "' into '"@,
                            default_branch,
                            "' failed; left work as local commits (fail-soft): "@,
                            e,
                        );
                    },
                }
            } else {
                lemma_three_parts(
                    line,
                    "CI green: would merge '"@,
                    branch,
                    "' into '"@,
                    default_branch,
                    "' (dry-run; pass --execute to merge)."@,
                    Seq::empty(),
                );
            }
        },
        CiVerdict::Wait => {
            text::a_text_holds_its_parts(
                "CI still running for '"@,
                pr,
                "': waiting (no merge)."@,
                pr,
            );
        },
        CiVerdict::Reenter => {
            text::a_text_holds_its_parts(
                "CI failed for '"@,
                pr,
                "': re-enter the worker to fix it (no merge)."@,
                pr,
            );
        },
        CiVerdict::DegradedLocalOnly { reason } => {
            lemma_three_parts(
                line,
                "CI status unavailable for '"@,
                pr,
                "': "@,
                reason@,
                "; left work as local commits (no merge)."@,
                Seq::empty(),
            );
        },
    }
}

proof fn lemma_three_parts(
    line: Seq<char>,
    a: Seq<char>,
    one: Seq<char>,
    b: Seq<char>,
    two: Seq<char>,
    c: Seq<char>,
    three: Seq<char>,
)
    requires
        line == a + one + b + two + c + three || (three.len() == 0 && line == a + one + b + two + c),
    ensures
        text::holds_text(line, one),
        text::holds_text(line, two),
        text::holds_text(line, three),
{
    text::a_text_holds_its_parts(a, one, b + two + c + three, one);
    assert(line =~= a + one + (b + two + c + three));
    text::a_text_holds_its_parts(a + one + b, two, c + three, two);
    assert(line =~= (a + one + b) + two + (c + three));
    text::a_text_holds_its_parts(a + one + b + two + c, three, Seq::empty(), three);
    assert(line =~= (a + one + b + two + c) + three + Seq::empty());
}

} // verus!
