//! The check behind an edit: whether it left the crate compiling.
//!
//! An edit that is none of its business passes. One whose check could
//! not be made does not: a check that never ran is not a check that passed.

use vstd::prelude::*;

use crate::text;
use crate::text::{end_of, join, line_list, owned, same_str, to_chars, trimmed, trimmed_end};

verus! {

// ---- colour codes --------------------------------------------------------

/// Where in a terminal code a text stands.
#[derive(Clone, Copy, PartialEq, Eq, Structural)]
pub enum Ansi {
    /// Outside any code.
    Plain,
    /// Behind an escape character.
    Escape,
    /// Inside a code that an opening bracket began.
    Code,
}

/// What is left of a text when the terminal codes in it are taken out, and where
/// its end stands.
pub open spec fn scan(s: Seq<char>) -> (Ansi, Seq<char>)
    decreases s.len(),
{
    if s.len() == 0 {
        (Ansi::Plain, Seq::empty())
    } else {
        let (at, out) = scan(s.drop_last());
        let c = s.last();
        match at {
            Ansi::Plain => if c == '\x1b' {
                (Ansi::Escape, out)
            } else {
                (Ansi::Plain, out.push(c))
            },
            Ansi::Escape => if c == '[' {
                (Ansi::Code, out)
            } else {
                (Ansi::Plain, out)
            },
            Ansi::Code => if '@' <= c && c <= '~' {
                (Ansi::Plain, out)
            } else {
                (Ansi::Code, out)
            },
        }
    }
}

/// A text without its terminal codes.
pub open spec fn plain(s: Seq<char>) -> Seq<char> {
    scan(s).1
}

/// Takes the terminal codes out of a text. A code that is cut off at the end
/// goes too.
pub fn strip_ansi(s: &str) -> (r: String)
    ensures
        r@ == plain(s@),
{
    let chars = to_chars(s);
    let mut out = String::new();
    let mut at = Ansi::Plain;
    let mut i: usize = 0;
    while i < chars.len()
        invariant
            i <= chars@.len(),
            (at, out@) == scan(chars@.take(i as int)),
        decreases chars@.len() - i,
    {
        let ghost upto = chars@.take(i as int + 1);
        assert(upto.drop_last() =~= chars@.take(i as int));
        assert(upto.last() == chars@[i as int]);
        let c = chars[i];
        match at {
            Ansi::Plain => {
                if c == '\x1b' {
                    at = Ansi::Escape;
                } else {
                    out.push(c);
                }
            },
            Ansi::Escape => {
                if c == '[' {
                    at = Ansi::Code;
                } else {
                    at = Ansi::Plain;
                }
            },
            Ansi::Code => {
                if '@' <= c && c <= '~' {
                    at = Ansi::Plain;
                }
            },
        }
        i += 1;
    }
    assert(chars@.take(i as int) =~= chars@);
    out
}

// ---- what the compiler said ----------------------------------------------

/// A word that begins an error stands at `i`.
pub open spec fn error_at(s: Seq<char>, i: int) -> bool {
    text::stands_at(s, "error[E"@, i) || text::stands_at(s, "error:"@, i)
}

/// An error stands at `i`, behind a place in a file.
pub open spec fn placed_error(s: Seq<char>, i: int) -> bool {
    2 <= i && s[i - 2] == ':' && s[i - 1] == ' ' && error_at(s, i)
}

/// A line reports an error: at its start, or behind the place that it is about.
pub open spec fn is_error(line: Seq<char>) -> bool {
    error_at(text::trim_start(plain(line)), 0) || exists|i: int|
        0 <= i <= plain(line).len() && #[trigger] placed_error(plain(line), i)
}

/// Whether a line of the compiler's output reports an error.
pub fn line_is_error(line: &str) -> (r: bool)
    ensures
        r == is_error(line@),
{
    let bare = strip_ansi(line);
    let start = text::trimmed_start(bare.as_str());
    if text::starts(start.as_str(), "error[E") || text::starts(start.as_str(), "error:") {
        return true;
    }
    let chars = to_chars(bare.as_str());
    let coded = to_chars("error[E");
    let bare_error = to_chars("error:");
    let mut i: usize = 2;
    while i < chars.len()
        invariant
            chars@ == plain(line@),
            coded@ == "error[E"@,
            bare_error@ == "error:"@,
            2 <= i,
            forall|k: int| 0 <= k < i && k <= chars@.len() ==> !#[trigger] placed_error(chars@, k),
        decreases chars@.len() - i,
    {
        if chars[i - 2] == ':' && chars[i - 1] == ' ' && (text::is_at(&chars, &coded, i)
            || text::is_at(&chars, &bare_error, i)) {
            assert(placed_error(plain(line@), i as int));
            return true;
        }
        i += 1;
    }
    proof {
        reveal_strlit("error[E");
        reveal_strlit("error:");
    }
    false
}

/// The errors among the lines of an output, bare and without the blanks behind
/// them.
pub open spec fn errors_in(rows: Seq<Seq<char>>) -> Seq<Seq<char>>
    decreases rows.len(),
{
    if rows.len() == 0 {
        Seq::empty()
    } else if is_error(rows.last()) {
        errors_in(rows.drop_last()).push(text::trim_end(plain(rows.last())))
    } else {
        errors_in(rows.drop_last())
    }
}

/// The errors of an output as one text, if it reports any.
pub open spec fn diagnosis(output: Seq<char>) -> Option<Seq<char>> {
    let found = errors_in(text::lines(output));
    if found.len() == 0 {
        None
    } else {
        Some(text::joined(found, "\n"@))
    }
}

/// Whether the output of the compiler reports errors, and which.
pub fn interpret_check_stdout(output: &str) -> (r: (bool, Option<String>))
    ensures
        text::opt(r.1) == diagnosis(output@),
        r.0 == (r.1 is Some),
{
    let rows = line_list(output);
    let ghost all = text::texts(rows@);
    let mut found: Vec<String> = Vec::new();
    assert(text::texts(found@) =~= errors_in(all.take(0)));
    let mut i: usize = 0;
    while i < rows.len()
        invariant
            all == text::texts(rows@),
            i <= rows@.len(),
            text::texts(found@) == errors_in(all.take(i as int)),
        decreases rows@.len() - i,
    {
        let ghost upto = all.take(i as int + 1);
        assert(upto.drop_last() =~= all.take(i as int));
        assert(upto.last() == rows@[i as int]@);
        if line_is_error(rows[i].as_str()) {
            let bare = strip_ansi(rows[i].as_str());
            let ghost before = text::texts(found@);
            let line = trimmed_end(bare.as_str());
            let ghost added = line@;
            found.push(line);
            assert(text::texts(found@) =~= before.push(added));
        }
        i += 1;
    }
    assert(all.take(i as int) =~= all);
    assert(text::texts(found@).len() == found@.len());
    if found.len() == 0 {
        (false, None)
    } else {
        (true, Some(join(&found, "\n")))
    }
}

/// The end of a text, bare and trimmed, in at most `max` bytes, marked where
/// something was cut off.
pub open spec fn tail_of(s: Seq<char>, max: nat) -> Seq<char> {
    let t = text::trim(plain(s));
    if text::byte_len(t) <= max {
        t
    } else {
        "..."@ + text::last_bytes(t, max)
    }
}

/// The end of a text, for a reader who has nothing better to go by.
pub fn tail(s: &str, max: usize) -> (r: String)
    ensures
        r@ == tail_of(s@, max as nat),
{
    let bare = strip_ansi(s);
    let t = trimmed(bare.as_str());
    let end = end_of(t.as_str(), max);
    if same_str(end.as_str(), t.as_str()) {
        proof {
            lemma_whole_end(t@, max as nat);
        }
        return t;
    }
    let mut r = owned("...");
    r.push_str(end.as_str());
    r
}

/// The longest end that fits is the whole text exactly where the whole text
/// fits.
proof fn lemma_whole_end(s: Seq<char>, max: nat)
    ensures
        text::last_bytes(s, max) == s <==> text::byte_len(s) <= max,
{
    text::lemma_end_fits(s, max);
}

// ---- verdicts ------------------------------------------------------------

/// What is known of an edit.
#[derive(Debug, PartialEq, Eq)]
pub struct EditVerdict {
    pub required: bool,
    /// The crate does not compile, or nobody knows whether it does.
    pub broken: bool,
    /// The edit is out of scope.
    pub fallback: bool,
    pub diagnostics: Option<String>,
    pub reason: String,
}

pub struct EditView {
    pub required: bool,
    pub broken: bool,
    pub fallback: bool,
    pub diagnostics: Option<Seq<char>>,
    pub reason: Seq<char>,
}

impl View for EditVerdict {
    type V = EditView;

    open spec fn view(&self) -> EditView {
        EditView {
            required: self.required,
            broken: self.broken,
            fallback: self.fallback,
            diagnostics: text::opt(self.diagnostics),
            reason: self.reason@,
        }
    }
}

/// What came of `cargo check`.
#[derive(Debug)]
pub enum CheckRun {
    /// It ran: what it printed, and whether it exited with 0.
    Finished { stdout: String, stderr: String, exit_ok: bool },
    /// It could not be started.
    NotStarted { error: String },
}

/// A file name is that of a Rust source: it ends in `.rs` and has something
/// before that.
pub open spec fn names_rust(file_name: Seq<char>) -> bool {
    file_name.len() > 3 && file_name.skip(file_name.len() - 3) == ".rs"@
}

fn is_rust(file_name: &str) -> (r: bool)
    ensures
        r == names_rust(file_name@),
{
    proof {
        reveal_strlit(".rs");
    }
    let chars = to_chars(file_name);
    let n = chars.len();
    if n <= 3 {
        return false;
    }
    assert(chars@.skip(n - 3) =~= seq![chars@[n - 3], chars@[n - 2], chars@[n - 1]]);
    assert(".rs"@ =~= seq!['.', 'r', 's']);
    let r = chars[n - 3] == '.' && chars[n - 2] == 'r' && chars[n - 1] == 's';
    proof {
        if chars@.skip(n - 3) == ".rs"@ {
            assert(chars@.skip(n - 3)[0] == ".rs"@[0]);
            assert(chars@.skip(n - 3)[1] == ".rs"@[1]);
            assert(chars@.skip(n - 3)[2] == ".rs"@[2]);
        }
    }
    r
}

/// A verdict on an edit that is out of scope.
pub open spec fn out_of_scope(required: bool, reason: Seq<char>) -> EditView {
    EditView { required, broken: false, fallback: true, diagnostics: None, reason }
}

/// A verdict on a check that ran. Errors in the output or an exit code other
/// than 0 both mean that the crate is broken; where no error was recognised, the
/// end of the output stands in for one.
pub open spec fn checked(required: bool, output: Seq<char>, exit_ok: bool) -> EditView {
    let found = diagnosis(output);
    EditView {
        required,
        broken: found is Some || !exit_ok,
        fallback: false,
        diagnostics: if found is Some {
            found
        } else if !exit_ok {
            Some(tail_of(output, 2000))
        } else {
            None
        },
        reason: if found is Some {
            "cargo check reported compile/type errors"@
        } else if !exit_ok {
            "cargo check exited non-zero without a diagnostic this gate could parse"@
        } else {
            "cargo check reported no errors"@
        },
    }
}

/// A verdict on a check that could not be started.
pub open spec fn unstarted(required: bool, error: Seq<char>) -> EditView {
    EditView {
        required,
        broken: true,
        fallback: false,
        diagnostics: None,
        reason: "failed to spawn cargo ("@ + error
            + ") — whether the edit still compiles could not be determined. Install/provide `cargo` and a reachable worktree; a checker that never ran is not a checker that passed"@,
    }
}

/// Whether the compiler is to be asked about an edit.
pub open spec fn in_scope(file_name: Option<Seq<char>>, in_worktree: bool) -> bool {
    file_name is Some && names_rust(file_name->0) && in_worktree
}

/// The verdict on an edit.
pub open spec fn edit_verdict(
    file_name: Option<Seq<char>>,
    in_worktree: bool,
    required: bool,
    run: CheckRun,
) -> EditView {
    if !(file_name is Some && names_rust(file_name->0)) {
        out_of_scope(required, "not a Rust source file"@)
    } else if !in_worktree {
        out_of_scope(required, "edited path is not inside a live condukt worktree"@)
    } else {
        match run {
            CheckRun::Finished { stdout, stderr, exit_ok } => checked(
                required,
                stdout@ + stderr@,
                exit_ok,
            ),
            CheckRun::NotStarted { error } => unstarted(required, error@),
        }
    }
}

/// Whether the compiler is to be asked about an edit of this file.
pub fn edit_in_scope(file_name: Option<&str>, in_worktree: bool) -> (r: bool)
    ensures
        r == in_scope(text::opt_str(file_name), in_worktree),
{
    match file_name {
        Some(name) => is_rust(name) && in_worktree,
        None => false,
    }
}

/// The verdict on an edit of the file called `file_name`, given what came of
/// asking the compiler. `run` is not looked at where the edit is out of scope.
pub fn check_edit(
    file_name: Option<&str>,
    in_worktree: bool,
    required: bool,
    run: &CheckRun,
) -> (r: EditVerdict)
    ensures
        r@ == edit_verdict(text::opt_str(file_name), in_worktree, required, *run),
{
    let rust = match file_name {
        Some(name) => is_rust(name),
        None => false,
    };
    if !rust {
        return EditVerdict {
            required,
            broken: false,
            fallback: true,
            diagnostics: None,
            reason: owned("not a Rust source file"),
        };
    }
    if !in_worktree {
        return EditVerdict {
            required,
            broken: false,
            fallback: true,
            diagnostics: None,
            reason: owned("edited path is not inside a live condukt worktree"),
        };
    }
    match run {
        CheckRun::Finished { stdout, stderr, exit_ok } => {
            let mut combined = stdout.clone();
            combined.push_str(stderr.as_str());
            let (parsed, diagnostics) = interpret_check_stdout(combined.as_str());
            let broken = parsed || !*exit_ok;
            let reason = if parsed {
                "cargo check reported compile/type errors"
            } else if broken {
                "cargo check exited non-zero without a diagnostic this gate could parse"
            } else {
                "cargo check reported no errors"
            };
            let diagnostics = match diagnostics {
                Some(d) => Some(d),
                None => {
                    if broken {
                        Some(tail(combined.as_str(), 2000))
                    } else {
                        None
                    }
                },
            };
            EditVerdict { required, broken, fallback: false, diagnostics, reason: owned(reason) }
        },
        CheckRun::NotStarted { error } => {
            let mut reason = owned("failed to spawn cargo (");
            reason.push_str(error.as_str());
            reason.push_str(
                ") — whether the edit still compiles could not be determined. Install/provide `cargo` and a reachable worktree; a checker that never ran is not a checker that passed",
            );
            EditVerdict { required, broken: true, fallback: false, diagnostics: None, reason }
        },
    }
}

/// What becomes of an edit.
#[derive(Debug, Clone, Copy, PartialEq, Eq, Structural)]
pub enum EditGateDecision {
    Allow,
    Reject,
}

/// What a verdict on an edit leads to.
pub open spec fn edit_gate(v: EditView) -> EditGateDecision {
    if v.required && !v.fallback && v.broken {
        EditGateDecision::Reject
    } else {
        EditGateDecision::Allow
    }
}

/// An edit is rejected where the check applies to it and the crate is not
/// known to compile.
pub fn enforce_edit_gate(verdict: &EditVerdict) -> (r: EditGateDecision)
    ensures
        r == edit_gate(verdict@),
{
    if verdict.required && !verdict.fallback && verdict.broken {
        EditGateDecision::Reject
    } else {
        EditGateDecision::Allow
    }
}

/// Whether a tool edits files.
pub fn edits_files(tool_name: &str) -> (r: bool)
    ensures
        r == (tool_name@ == "Edit"@ || tool_name@ == "Write"@ || tool_name@ == "MultiEdit"@),
{
    same_str(tool_name, "Edit") || same_str(tool_name, "Write") || same_str(tool_name, "MultiEdit")
}

/// What is said to whoever made an edit that is rejected.
pub open spec fn block_reason_of(v: EditView) -> Option<Seq<char>> {
    if edit_gate(v) == EditGateDecision::Reject {
        match v.diagnostics {
            Some(d) => if d.len() > 0 {
                Some(d)
            } else {
                Some("edit left the crate not compiling (see cargo check)"@)
            },
            None => Some("edit left the crate not compiling (see cargo check)"@),
        }
    } else {
        None
    }
}

/// What to say where the edit is rejected, and nothing where it is not.
pub fn block_reason(verdict: &EditVerdict) -> (r: Option<String>)
    ensures
        text::opt(r) == block_reason_of(verdict@),
{
    match enforce_edit_gate(verdict) {
        EditGateDecision::Allow => None,
        EditGateDecision::Reject => {
            match &verdict.diagnostics {
                Some(d) => {
                    if !d.as_str().is_empty() {
                        return Some(d.clone());
                    }
                },
                None => {},
            }
            Some(owned("edit left the crate not compiling (see cargo check)"))
        },
    }
}

// ---- laws ----------------------------------------------------------------

/// A text without an escape character is left as it is.
pub proof fn plain_text_is_untouched(s: Seq<char>)
    requires
        !s.contains('\x1b'),
    ensures
        plain(s) == s,
        scan(s).0 == Ansi::Plain,
    decreases s.len(),
{
    if s.len() > 0 {
        assert forall|i: int| 0 <= i < s.len() implies s[i] != '\x1b' by {
            assert(s.contains(s[i]));
        }
        assert(!s.drop_last().contains('\x1b'));
        plain_text_is_untouched(s.drop_last());
        assert(s.drop_last().push(s.last()) =~= s);
    }
}

/// No escape character is left.
pub proof fn no_code_is_left(s: Seq<char>)
    ensures
        !plain(s).contains('\x1b'),
    decreases s.len(),
{
    if s.len() > 0 {
        no_code_is_left(s.drop_last());
        let before = plain(s.drop_last());
        if plain(s).contains('\x1b') {
            let i = choose|i: int| 0 <= i < plain(s).len() && plain(s)[i] == '\x1b';
            if i < before.len() {
                assert(before[i] == '\x1b');
            }
        }
    }
}

/// A crate whose check did not exit with 0 is never reported as compiling, and
/// neither is one whose check could not be started.
pub proof fn a_failed_check_is_never_clean(required: bool, output: Seq<char>, error: Seq<char>)
    ensures
        checked(required, output, false).broken,
        !checked(required, output, false).fallback,
        unstarted(required, error).broken,
        !unstarted(required, error).fallback,
{
}

/// An edit is rejected exactly where it is in scope, the check is on, and the
/// crate is not known to compile.
pub proof fn only_edits_in_scope_are_rejected(
    file_name: Option<Seq<char>>,
    in_worktree: bool,
    required: bool,
    run: CheckRun,
)
    ensures
        edit_gate(edit_verdict(file_name, in_worktree, required, run)) == EditGateDecision::Reject
            <==> required && in_scope(file_name, in_worktree) && match run {
            CheckRun::Finished { stdout, stderr, exit_ok } => diagnosis(stdout@ + stderr@) is Some
                || !exit_ok,
            CheckRun::NotStarted { .. } => true,
        },
{
}

/// Where a text ends outside a code, what follows is read on its own.
proof fn lemma_scan_goes_on(a: Seq<char>, b: Seq<char>)
    requires
        scan(a).0 == Ansi::Plain,
    ensures
        scan(a + b).0 == scan(b).0,
        scan(a + b).1 == scan(a).1 + scan(b).1,
    decreases b.len(),
{
    if b.len() == 0 {
        assert(a + b =~= a);
        assert(scan(a).1 + scan(b).1 =~= scan(a).1);
    } else {
        lemma_scan_goes_on(a, b.drop_last());
        assert((a + b).drop_last() =~= a + b.drop_last());
        assert((a + b).last() == b.last());
        let (at, out) = scan(b.drop_last());
        assert(scan(a + b).1 =~= scan(a).1 + scan(b).1);
    }
}

proof fn lemma_scan_in_code(s: Seq<char>, inside: Seq<char>)
    requires
        scan(s).0 == Ansi::Code,
        forall|k: int| 0 <= k < inside.len() ==> !('@' <= #[trigger] inside[k] <= '~'),
    ensures
        scan(s + inside).0 == Ansi::Code,
        scan(s + inside).1 == scan(s).1,
    decreases inside.len(),
{
    if inside.len() == 0 {
        assert(s + inside =~= s);
    } else {
        let before = inside.drop_last();
        assert forall|k: int| 0 <= k < before.len() implies !('@' <= #[trigger] before[k] <= '~') by {
            assert(before[k] == inside[k]);
        }
        lemma_scan_in_code(s, before);
        assert((s + inside).drop_last() =~= s + before);
        assert((s + inside).last() == inside[inside.len() - 1]);
    }
}

/// A code is taken out whole, from its escape to the letter that ends it, and
/// what stands before and after it stays.
pub proof fn a_code_is_taken_out_whole(
    before: Seq<char>,
    inside: Seq<char>,
    end: char,
    after: Seq<char>,
)
    requires
        !before.contains('\x1b'),
        !after.contains('\x1b'),
        forall|k: int| 0 <= k < inside.len() ==> !('@' <= #[trigger] inside[k] <= '~'),
        '@' <= end <= '~',
    ensures
        plain(before + seq!['\x1b', '['] + inside + seq![end] + after) == before + after,
{
    plain_text_is_untouched(before);
    plain_text_is_untouched(after);
    let one = before.push('\x1b');
    let two = one.push('[');
    assert(one.drop_last() =~= before);
    assert(two.drop_last() =~= one);
    assert(scan(one) == (Ansi::Escape, before));
    assert(scan(two) == (Ansi::Code, before));
    lemma_scan_in_code(two, inside);
    let code = two + inside;
    let closed = code.push(end);
    assert(closed.drop_last() =~= code);
    assert(scan(closed) == (Ansi::Plain, before));
    lemma_scan_goes_on(closed, after);
    assert(before + seq!['\x1b', '['] + inside + seq![end] + after =~= closed + after);
}

/// An escape that starts no code takes the one character after it along.
pub proof fn a_lone_escape_takes_one_character(before: Seq<char>, c: char, after: Seq<char>)
    requires
        !before.contains('\x1b'),
        !after.contains('\x1b'),
        c != '[',
    ensures
        plain(before + seq!['\x1b', c] + after) == before + after,
{
    plain_text_is_untouched(before);
    plain_text_is_untouched(after);
    let one = before.push('\x1b');
    let two = one.push(c);
    assert(one.drop_last() =~= before);
    assert(two.drop_last() =~= one);
    assert(scan(one) == (Ansi::Escape, before));
    assert(scan(two) == (Ansi::Plain, before));
    lemma_scan_goes_on(two, after);
    assert(before + seq!['\x1b', c] + after =~= two + after);
}

/// A line reports an error where one of the two words for it stands first, or
/// right after a place and a colon; and only a line that holds one does.
pub proof fn an_error_starts_a_line_or_follows_a_place(line: Seq<char>, i: int)
    ensures
        text::stands_at(text::trim_start(plain(line)), "error:"@, 0) ==> is_error(line),
        text::stands_at(text::trim_start(plain(line)), "error[E"@, 0) ==> is_error(line),
        2 <= i <= plain(line).len() && plain(line)[i - 2] == ':' && plain(line)[i - 1] == ' '
            && text::stands_at(plain(line), "error:"@, i) ==> is_error(line),
        2 <= i <= plain(line).len() && plain(line)[i - 2] == ':' && plain(line)[i - 1] == ' '
            && text::stands_at(plain(line), "error[E"@, i) ==> is_error(line),
        is_error(line) ==> text::stands_at(text::trim_start(plain(line)), "error:"@, 0)
            || text::stands_at(text::trim_start(plain(line)), "error[E"@, 0) || exists|k: int|
            2 <= k && #[trigger] plain(line)[k - 2] == ':' && plain(line)[k - 1] == ' ' && (
            text::stands_at(plain(line), "error:"@, k) || text::stands_at(
                plain(line),
                "error[E"@,
                k,
            )),
{
    let s = plain(line);
    if 2 <= i <= s.len() && s[i - 2] == ':' && s[i - 1] == ' ' && (text::stands_at(
        s,
        "error:"@,
        i,
    ) || text::stands_at(s, "error[E"@, i)) {
        assert(placed_error(s, i));
    }
    if is_error(line) && !error_at(text::trim_start(s), 0) {
        let k = choose|k: int| 0 <= k <= s.len() && #[trigger] placed_error(s, k);
        assert(s[k - 2] == ':');
    }
}

/// Every line that reports an error is told, without codes and without the space
/// at its end, in its order; and there is a diagnosis exactly where there is one.
pub proof fn every_error_is_told(rows: Seq<Seq<char>>, output: Seq<char>)
    ensures
        errors_in(rows) == rows.filter(|row: Seq<char>| is_error(row)).map_values(
            |row: Seq<char>| text::trim_end(plain(row)),
        ),
        diagnosis(output) is None <==> errors_in(text::lines(output)).len() == 0,
        diagnosis(output) is Some ==> diagnosis(output)->0 == text::joined(
            errors_in(text::lines(output)),
            "\n"@,
        ),
    decreases rows.len(),
{
    reveal(Seq::filter);
    let bad = |row: Seq<char>| is_error(row);
    let tell = |row: Seq<char>| text::trim_end(plain(row));
    if rows.len() > 0 {
        let before = rows.drop_last();
        every_error_is_told(before, output);
        assert(before.filter(bad).push(rows.last()).map_values(tell) =~= before.filter(
            bad,
        ).map_values(tell).push(tell(rows.last())));
    }
    assert(errors_in(rows) =~= rows.filter(bad).map_values(tell));
}

/// A file is a Rust source where its name ends so and has something before that.
pub proof fn a_rust_file_has_a_name_before_its_ending(stem: Seq<char>, name: Seq<char>)
    ensures
        names_rust(stem + ".rs"@) <==> stem.len() > 0,
        names_rust(name) ==> exists|s: Seq<char>| s.len() > 0 && #[trigger] (s + ".rs"@) == name,
{
    reveal_strlit(".rs");
    let full = stem + ".rs"@;
    assert(full.skip(full.len() - 3) =~= ".rs"@);
    if names_rust(name) {
        let s = name.take(name.len() - 3);
        assert(s + ".rs"@ =~= name);
    }
}

/// A check that ended well and told of no error leaves the edit whole; one that
/// told of an error or ended badly leaves it broken, and says why. An edit is
/// rejected exactly where a check is required, was made and found it broken.
pub proof fn a_check_is_read_as_it_ended(
    required: bool,
    output: Seq<char>,
    exit_ok: bool,
    v: EditView,
)
    ensures
        ({
            let c = checked(required, output, exit_ok);
            &&& c.required == required
            &&& !c.fallback
            &&& c.broken <==> diagnosis(output) is Some || !exit_ok
            &&& diagnosis(output) is Some ==> c.diagnostics == diagnosis(output)
            &&& diagnosis(output) is None && !exit_ok ==> c.diagnostics == Some(
                tail_of(output, 2000),
            )
            &&& diagnosis(output) is None && exit_ok ==> c.diagnostics is None
        }),
        edit_gate(v) == EditGateDecision::Reject <==> v.required && v.broken && !v.fallback,
        edit_gate(v) == EditGateDecision::Allow <==> !v.required || !v.broken || v.fallback,
{
}

/// An edit is checked exactly where it is to a Rust source in a live worktree;
/// any other is let through unchecked.
pub proof fn other_edits_are_let_through(
    file_name: Option<Seq<char>>,
    in_worktree: bool,
    required: bool,
    run: CheckRun,
)
    ensures
        in_scope(file_name, in_worktree) <==> in_worktree && file_name is Some && names_rust(
            file_name->0,
        ),
        !in_worktree ==> edit_verdict(file_name, in_worktree, required, run).fallback && !edit_verdict(
            file_name,
            in_worktree,
            required,
            run,
        ).broken,
        file_name is None || !names_rust(file_name->0) ==> edit_verdict(
            file_name,
            in_worktree,
            required,
            run,
        ).fallback && !edit_verdict(file_name, in_worktree, required, run).broken,
        in_scope(file_name, in_worktree) && run is NotStarted ==> edit_verdict(
            file_name,
            in_worktree,
            required,
            run,
        ).broken && !edit_verdict(file_name, in_worktree, required, run).fallback,
        edit_verdict(file_name, in_worktree, required, run).required == required,
{
}

/// A block always has a reason, and only a block has: the diagnosis where there
/// is one that says something.
pub proof fn a_block_has_its_reason(v: EditView)
    ensures
        block_reason_of(v) is Some <==> v.required && v.broken && !v.fallback,
        block_reason_of(v) is Some ==> block_reason_of(v)->0.len() > 0,
        block_reason_of(v) is Some && v.diagnostics is Some && v.diagnostics->0.len() > 0
            ==> block_reason_of(v) == v.diagnostics,
{
    reveal_strlit("edit left the crate not compiling (see cargo check)");
}

/// The tail of an output is what it says, without codes and space around it; of a
/// long one, the end that fits, marked.
pub proof fn a_tail_is_the_end(s: Seq<char>, max: nat)
    ensures
        text::byte_len(text::trim(plain(s))) <= max ==> tail_of(s, max) == text::trim(plain(s)),
        text::byte_len(text::trim(plain(s))) > max ==> tail_of(s, max).skip(3) == text::last_bytes(
            text::trim(plain(s)),
            max,
        ) && tail_of(s, max).take(3) == "..."@,
{
    reveal_strlit("...");
    let t = text::trim(plain(s));
    if text::byte_len(t) > max {
        assert(tail_of(s, max).skip(3) =~= text::last_bytes(t, max));
        assert(tail_of(s, max).take(3) =~= "..."@);
    }
}

} // verus!
