//! The conclusion of a CI run, read off the status output of `gh`.
//!
//! The output is JSON or a table of plain text. Mixed signals are settled in a
//! fixed order: one failure outweighs everything, one pending check outweighs
//! success, and success takes every check. Anything short of that is never taken
//! for success.

use vstd::prelude::*;

use crate::json;
use crate::json::{Json, JsonView};
use crate::text;
use crate::text::{blank, holds_part, line_list, to_lowercase, trimmed};

verus! {

/// What a set of checks comes to.
#[derive(Debug, Clone, Copy, PartialEq, Eq, Structural)]
pub enum CiConclusion {
    /// Every observed check reported a status of success, and none failed or is
    /// still running.
    Success,
    /// Some check failed.
    Failure,
    /// Some check is still running, and none failed.
    Pending,
    /// No check was observed, or some check says nothing that is known.
    Unknown,
}

/// The status of a check that failed.
pub open spec fn says_failure(s: Seq<char>) -> bool {
    ||| text::holds_text(s, "fail"@)
    ||| text::holds_text(s, "error"@)
    ||| text::holds_text(s, "cancelled"@)
    ||| text::holds_text(s, "canceled"@)
    ||| text::holds_text(s, "timed_out"@)
    ||| text::holds_text(s, "timeout"@)
    ||| text::holds_text(s, "action_required"@)
}

/// The status of a check that is still running.
pub open spec fn says_pending(s: Seq<char>) -> bool {
    ||| text::holds_text(s, "pending"@)
    ||| text::holds_text(s, "queued"@)
    ||| text::holds_text(s, "in_progress"@)
    ||| text::holds_text(s, "waiting"@)
    ||| text::holds_text(s, "requested"@)
}

/// The status of a check that succeeded.
pub open spec fn says_success(s: Seq<char>) -> bool {
    ||| text::holds_text(s, "success"@)
    ||| text::holds_text(s, "pass"@)
    ||| text::holds_text(s, "completed"@)
}

/// One of the statuses of a check says that it failed.
pub open spec fn check_failed(check: Seq<Seq<char>>) -> bool {
    exists|i: int| 0 <= i < check.len() && says_failure(#[trigger] check[i])
}

/// One of the statuses of a check says that it is still running.
pub open spec fn check_pending(check: Seq<Seq<char>>) -> bool {
    exists|i: int| 0 <= i < check.len() && says_pending(#[trigger] check[i])
}

/// One of the statuses of a check says that it succeeded.
pub open spec fn check_succeeded(check: Seq<Seq<char>>) -> bool {
    exists|i: int| 0 <= i < check.len() && says_success(#[trigger] check[i])
}

/// What checks come to, each given by its statuses in lower case.
pub open spec fn concludes(checks: Seq<Seq<Seq<char>>>) -> CiConclusion {
    if exists|i: int| 0 <= i < checks.len() && check_failed(#[trigger] checks[i]) {
        CiConclusion::Failure
    } else if exists|i: int| 0 <= i < checks.len() && check_pending(#[trigger] checks[i]) {
        CiConclusion::Pending
    } else if checks.len() > 0 && forall|i: int|
        0 <= i < checks.len() ==> check_succeeded(#[trigger] checks[i]) {
        CiConclusion::Success
    } else {
        CiConclusion::Unknown
    }
}

/// Checks, each by its statuses.
pub open spec fn check_views(checks: Seq<Vec<String>>) -> Seq<Seq<Seq<char>>> {
    checks.map_values(|c: Vec<String>| text::texts(c@))
}

/// The status under one key of an object, in lower case.
pub open spec fn status_at(v: JsonView, key: Seq<char>) -> Seq<Seq<char>> {
    match v.text_at(key) {
        Some(s) => seq![text::lowercase(s)],
        None => Seq::empty(),
    }
}

/// The statuses of one object, not counting those of the values in it.
pub open spec fn own_statuses(v: JsonView) -> Seq<Seq<char>> {
    status_at(v, "conclusion"@) + status_at(v, "state"@) + status_at(v, "bucket"@) + status_at(
        v,
        "status"@,
    )
}

/// The check that one object is, where it has a status of its own.
pub open spec fn own_check(v: JsonView) -> Seq<Seq<Seq<char>>> {
    if own_statuses(v).len() > 0 {
        seq![own_statuses(v)]
    } else {
        Seq::empty()
    }
}

/// The checks in a document, at any depth.
pub open spec fn checks_in(v: JsonView) -> Seq<Seq<Seq<char>>>
    decreases v,
{
    match v {
        JsonView::Array(items) => item_checks(items),
        JsonView::Object(members) => own_check(v) + member_checks(members),
        _ => Seq::empty(),
    }
}

/// The checks in the items of an array.
pub open spec fn item_checks(items: Seq<JsonView>) -> Seq<Seq<Seq<char>>>
    decreases items,
{
    if items.len() == 0 {
        Seq::empty()
    } else {
        item_checks(items.drop_last()) + checks_in(items[items.len() - 1])
    }
}

/// The checks in the values of an object.
pub open spec fn member_checks(members: Seq<(Seq<char>, JsonView)>) -> Seq<Seq<Seq<char>>>
    decreases members,
{
    if members.len() == 0 {
        Seq::empty()
    } else {
        proof {
            let last = members[members.len() - 1];
            assert(decreases_to!(members => last));
            assert(decreases_to!(last => last.1));
        }
        member_checks(members.drop_last()) + checks_in(members[members.len() - 1].1)
    }
}

/// The lines of a table in lower case, without the blank ones. Each is a check.
pub open spec fn line_checks(rows: Seq<Seq<char>>) -> Seq<Seq<Seq<char>>>
    decreases rows.len(),
{
    if rows.len() == 0 {
        Seq::empty()
    } else {
        let row = text::lowercase(rows.last());
        if text::trim(row).len() > 0 {
            line_checks(rows.drop_last()).push(seq![row])
        } else {
            line_checks(rows.drop_last())
        }
    }
}

/// What the output comes to, given the JSON document it spells, if any.
pub open spec fn reads_as(document: Option<JsonView>, output: Seq<char>) -> CiConclusion {
    match document {
        Some(v) => if checks_in(v).len() > 0 {
            concludes(checks_in(v))
        } else {
            concludes(line_checks(text::lines(output)))
        },
        None => concludes(line_checks(text::lines(output))),
    }
}

fn failed(s: &str) -> (r: bool)
    ensures
        r == says_failure(s@),
{
    holds_part(s, "fail") || holds_part(s, "error") || holds_part(s, "cancelled") || holds_part(
        s,
        "canceled",
    ) || holds_part(s, "timed_out") || holds_part(s, "timeout") || holds_part(s, "action_required")
}

fn pending(s: &str) -> (r: bool)
    ensures
        r == says_pending(s@),
{
    holds_part(s, "pending") || holds_part(s, "queued") || holds_part(s, "in_progress")
        || holds_part(s, "waiting") || holds_part(s, "requested")
}

fn succeeded(s: &str) -> (r: bool)
    ensures
        r == says_success(s@),
{
    holds_part(s, "success") || holds_part(s, "pass") || holds_part(s, "completed")
}

/// What the statuses of one check say: that it failed, that it is still running,
/// that it succeeded.
fn signals(check: &Vec<String>) -> (r: (bool, bool, bool))
    ensures
        r.0 == check_failed(text::texts(check@)),
        r.1 == check_pending(text::texts(check@)),
        r.2 == check_succeeded(text::texts(check@)),
{
    let ghost all = text::texts(check@);
    let mut has_failure = false;
    let mut has_pending = false;
    let mut has_success = false;
    let mut i: usize = 0;
    while i < check.len()
        invariant
            all == text::texts(check@),
            i <= check@.len(),
            has_failure == exists|k: int| 0 <= k < i && says_failure(#[trigger] all[k]),
            has_pending == exists|k: int| 0 <= k < i && says_pending(#[trigger] all[k]),
            has_success == exists|k: int| 0 <= k < i && says_success(#[trigger] all[k]),
        decreases check@.len() - i,
    {
        let s = check[i].as_str();
        assert(all[i as int] == s@);
        if failed(s) {
            has_failure = true;
        }
        if pending(s) {
            has_pending = true;
        }
        if succeeded(s) {
            has_success = true;
        }
        i += 1;
    }
    (has_failure, has_pending, has_success)
}

/// What checks come to, each given by its statuses in lower case.
pub fn classify(checks: &Vec<Vec<String>>) -> (r: CiConclusion)
    ensures
        r == concludes(check_views(checks@)),
{
    let ghost all = check_views(checks@);
    let mut some_failed = false;
    let mut some_pending = false;
    let mut all_succeeded = checks.len() > 0;
    let mut i: usize = 0;
    while i < checks.len()
        invariant
            all == check_views(checks@),
            i <= checks@.len(),
            some_failed == exists|k: int| 0 <= k < i && check_failed(#[trigger] all[k]),
            some_pending == exists|k: int| 0 <= k < i && check_pending(#[trigger] all[k]),
            all_succeeded == (checks@.len() > 0 && forall|k: int|
                0 <= k < i ==> check_succeeded(#[trigger] all[k])),
        decreases checks@.len() - i,
    {
        assert(all[i as int] == text::texts(checks@[i as int]@));
        let (has_failure, has_pending, has_success) = signals(&checks[i]);
        if has_failure {
            some_failed = true;
        }
        if has_pending {
            some_pending = true;
        }
        if !has_success {
            all_succeeded = false;
        }
        i += 1;
    }
    if some_failed {
        CiConclusion::Failure
    } else if some_pending {
        CiConclusion::Pending
    } else if all_succeeded {
        CiConclusion::Success
    } else {
        CiConclusion::Unknown
    }
}

fn push_status(v: &Json, key: &str, out: &mut Vec<String>)
    ensures
        text::texts(final(out)@) == text::texts(old(out)@) + status_at(v@, key@),
{
    let ghost before = text::texts(out@);
    match v.text_at(key) {
        Some(s) => {
            out.push(to_lowercase(s.as_str()));
            assert(text::texts(out@) =~= before + status_at(v@, key@));
        },
        None => {
            assert(text::texts(out@) =~= before + status_at(v@, key@));
        },
    }
}

/// Adds the checks in a document to a list, each by its statuses.
fn collect_status_strings(v: &Json, out: &mut Vec<Vec<String>>)
    ensures
        check_views(final(out)@) == check_views(old(out)@) + checks_in(v@),
    decreases v@,
{
    let ghost before = check_views(out@);
    match v {
        Json::Array(items) => {
            let ghost all = v@->Array_0;
            let mut i: usize = 0;
            proof {
                json::lemma_array(*v);
            }
            assert(all.take(0) =~= Seq::<JsonView>::empty());
            assert(before + item_checks(all.take(0)) =~= before);
            while i < items.len()
                invariant
                    v@ == JsonView::Array(all),
                    i <= items@.len() == all.len(),
                    forall|k: int| 0 <= k < items@.len() ==> #[trigger] all[k] == items@[k]@,
                    check_views(out@) == before + item_checks(all.take(i as int)),
                decreases items@.len() - i,
            {
                let ghost upto = all.take(i as int + 1);
                assert(upto.drop_last() =~= all.take(i as int));
                assert(upto[upto.len() - 1] == all[i as int]);
                assert(decreases_to!(v@ => v@->Array_0));
                assert(decreases_to!(all => all[i as int]));
                collect_status_strings(&items[i], out);
                assert(before + item_checks(all.take(i as int)) + checks_in(all[i as int])
                    =~= before + (item_checks(all.take(i as int)) + checks_in(all[i as int])));
                i += 1;
            }
            assert(all.take(i as int) =~= all);
        },
        Json::Object(members) => {
            let mut check: Vec<String> = Vec::new();
            push_status(v, "conclusion", &mut check);
            push_status(v, "state", &mut check);
            push_status(v, "bucket", &mut check);
            push_status(v, "status", &mut check);
            assert(text::texts(check@) =~= own_statuses(v@));
            assert(text::texts(check@).len() == check@.len());
            let ghost own = own_check(v@);
            if check.len() > 0 {
                out.push(check);
            }
            let ghost all = v@->Object_0;
            let mut i: usize = 0;
            proof {
                json::lemma_object(*v);
            }
            assert(check_views(out@) =~= before + own);
            assert(all.take(0) =~= Seq::<(Seq<char>, JsonView)>::empty());
            assert(before + (own + member_checks(all.take(0))) =~= before + own);
            while i < members.len()
                invariant
                    v@ == JsonView::Object(all),
                    i <= members@.len() == all.len(),
                    forall|k: int|
                        0 <= k < members@.len() ==> #[trigger] all[k] == (
                            members@[k].key@,
                            members@[k].value@,
                        ),
                    check_views(out@) == before + (own + member_checks(all.take(i as int))),
                decreases members@.len() - i,
            {
                let ghost upto = all.take(i as int + 1);
                assert(upto.drop_last() =~= all.take(i as int));
                assert(upto[upto.len() - 1] == all[i as int]);
                let ghost pair = all[i as int];
                assert(decreases_to!(v@ => v@->Object_0));
                assert(decreases_to!(all => pair));
                assert(decreases_to!(pair => pair.1));
                collect_status_strings(&members[i].value, out);
                assert(before + (own + member_checks(all.take(i as int))) + checks_in(
                    all[i as int].1,
                ) =~= before + (own + (member_checks(all.take(i as int)) + checks_in(
                    all[i as int].1,
                ))));
                i += 1;
            }
            assert(all.take(i as int) =~= all);
        },
        _ => {
            assert(before + checks_in(v@) =~= before);
        },
    }
}

/// The lines of a table as checks.
fn row_checks(rows: &Vec<String>) -> (r: Vec<Vec<String>>)
    ensures
        check_views(r@) == line_checks(text::texts(rows@)),
{
    let ghost all = text::texts(rows@);
    let mut out: Vec<Vec<String>> = Vec::new();
    let mut i: usize = 0;
    assert(check_views(out@) =~= line_checks(all.take(0)));
    while i < rows.len()
        invariant
            all == text::texts(rows@),
            i <= rows@.len(),
            check_views(out@) == line_checks(all.take(i as int)),
        decreases rows@.len() - i,
    {
        let ghost upto = all.take(i as int + 1);
        assert(upto.drop_last() =~= all.take(i as int));
        assert(upto.last() == rows@[i as int]@);
        let row = to_lowercase(rows[i].as_str());
        if !blank(row.as_str()) {
            let ghost before = check_views(out@);
            let ghost added = row@;
            let mut check: Vec<String> = Vec::new();
            check.push(row);
            assert(text::texts(check@) =~= seq![added]);
            out.push(check);
            assert(check_views(out@) =~= before.push(seq![added]));
        }
        i += 1;
    }
    assert(all.take(i as int) =~= all);
    out
}

/// What the output comes to, given the JSON document it spells, if any.
pub fn read_checks(document: &Option<Json>, output: &str) -> (r: CiConclusion)
    ensures
        r == reads_as(json::opt(*document), output@),
{
    match document {
        Some(j) => {
            let mut found: Vec<Vec<String>> = Vec::new();
            collect_status_strings(j, &mut found);
            assert(check_views(found@) =~= checks_in(j@));
            assert(check_views(found@).len() == found@.len());
            if found.len() > 0 {
                return classify(&found);
            }
        },
        None => {},
    }
    let rows = line_list(output);
    let found = row_checks(&rows);
    classify(&found)
}

/// What the status output of `gh` comes to: JSON where it is JSON with a status
/// in it, and a table of plain text otherwise.
pub fn parse_ci_checks(output: &str) -> (r: CiConclusion)
    ensures
        r == (if text::trim(output@).len() == 0 {
            CiConclusion::Unknown
        } else {
            reads_as(json::parsed(text::trim(output@)), text::trim(output@))
        }),
{
    let whole = trimmed(output);
    if whole.as_str().is_empty() {
        return CiConclusion::Unknown;
    }
    let document = json::parse(whole.as_str());
    read_checks(&document, whole.as_str())
}

// ---- laws ----------------------------------------------------------------

/// One failing check decides, whatever the other checks say and wherever it
/// stands.
pub proof fn a_failure_always_wins(checks: Seq<Seq<Seq<char>>>, i: int)
    requires
        0 <= i < checks.len(),
        check_failed(checks[i]),
    ensures
        concludes(checks) == CiConclusion::Failure,
{
}

/// A run that is still going is not taken for a clean one.
pub proof fn a_pending_check_is_never_success(checks: Seq<Seq<Seq<char>>>, i: int)
    requires
        0 <= i < checks.len(),
        check_pending(checks[i]),
    ensures
        concludes(checks) == CiConclusion::Failure || concludes(checks) == CiConclusion::Pending,
{
}

/// Success takes a check, and a status of success from every one of them.
pub proof fn success_is_never_guessed(checks: Seq<Seq<Seq<char>>>)
    ensures
        concludes(checks) == CiConclusion::Success ==> checks.len() > 0 && forall|i: int|
            0 <= i < checks.len() ==> check_succeeded(#[trigger] checks[i]) && !check_failed(
                checks[i],
            ) && !check_pending(checks[i]),
{
}

/// A status says that a check failed, is pending or succeeded by any of the words
/// for it, wherever in it they stand.
pub proof fn any_word_tells_a_status(s: Seq<char>)
    ensures
        text::holds_text(s, "fail"@) || text::holds_text(s, "error"@) || text::holds_text(
            s,
            "cancelled"@,
        ) || text::holds_text(s, "canceled"@) || text::holds_text(s, "timed_out"@)
            || text::holds_text(s, "timeout"@) || text::holds_text(s, "action_required"@)
            <==> says_failure(s),
        text::holds_text(s, "pending"@) || text::holds_text(s, "queued"@) || text::holds_text(
            s,
            "in_progress"@,
        ) || text::holds_text(s, "waiting"@) || text::holds_text(s, "requested"@) <==> says_pending(
            s,
        ),
        text::holds_text(s, "success"@) || text::holds_text(s, "pass"@) || text::holds_text(
            s,
            "completed"@,
        ) <==> says_success(s),
{
}

/// The whole failed exactly where some status of some check says so; it is
/// pending exactly where none does and some status says that; it succeeded
/// exactly where neither holds, there is a check and each has a status that says
/// so; and otherwise nothing is known.
pub proof fn the_whole_is_read_off_every_status(checks: Seq<Seq<Seq<char>>>)
    ensures
        ({
            let failed = exists|i: int, j: int|
                0 <= i < checks.len() && 0 <= j < checks[i].len() && says_failure(
                    #[trigger] checks[i][j],
                );
            let pending = exists|i: int, j: int|
                0 <= i < checks.len() && 0 <= j < checks[i].len() && says_pending(
                    #[trigger] checks[i][j],
                );
            let passed = forall|i: int|
                0 <= i < checks.len() ==> check_succeeded(#[trigger] checks[i]);
            &&& concludes(checks) == CiConclusion::Failure <==> failed
            &&& concludes(checks) == CiConclusion::Pending <==> !failed && pending
            &&& concludes(checks) == CiConclusion::Success <==> !failed && !pending && checks.len()
                != 0 && passed
        }),
{
    if exists|i: int, j: int|
        0 <= i < checks.len() && 0 <= j < checks[i].len() && says_failure(#[trigger] checks[i][j]) {
        let (i, j) = choose|i: int, j: int|
            0 <= i < checks.len() && 0 <= j < checks[i].len() && says_failure(
                #[trigger] checks[i][j],
            );
        assert(says_failure(checks[i][j]));
        assert(check_failed(checks[i]));
    }
    if exists|i: int| 0 <= i < checks.len() && check_failed(#[trigger] checks[i]) {
        let i = choose|i: int| 0 <= i < checks.len() && check_failed(#[trigger] checks[i]);
        let j = choose|j: int| 0 <= j < checks[i].len() && says_failure(#[trigger] checks[i][j]);
        assert(says_failure(checks[i][j]));
    }
    if exists|i: int, j: int|
        0 <= i < checks.len() && 0 <= j < checks[i].len() && says_pending(#[trigger] checks[i][j]) {
        let (i, j) = choose|i: int, j: int|
            0 <= i < checks.len() && 0 <= j < checks[i].len() && says_pending(
                #[trigger] checks[i][j],
            );
        assert(says_pending(checks[i][j]));
        assert(check_pending(checks[i]));
    }
    if exists|i: int| 0 <= i < checks.len() && check_pending(#[trigger] checks[i]) {
        let i = choose|i: int| 0 <= i < checks.len() && check_pending(#[trigger] checks[i]);
        let j = choose|j: int| 0 <= j < checks[i].len() && says_pending(#[trigger] checks[i][j]);
        assert(says_pending(checks[i][j]));
    }
}

/// A check is told by any of its statuses.
pub proof fn any_status_tells_a_check(check: Seq<Seq<char>>, j: int)
    ensures
        0 <= j < check.len() && says_failure(check[j]) ==> check_failed(check),
        0 <= j < check.len() && says_pending(check[j]) ==> check_pending(check),
        0 <= j < check.len() && says_success(check[j]) ==> check_succeeded(check),
        (forall|k: int| 0 <= k < check.len() ==> !says_failure(#[trigger] check[k]))
            ==> !check_failed(check),
        (forall|k: int| 0 <= k < check.len() ==> !says_pending(#[trigger] check[k]))
            ==> !check_pending(check),
        (forall|k: int| 0 <= k < check.len() ==> !says_success(#[trigger] check[k]))
            ==> !check_succeeded(check),
{
}

/// The statuses of an object are those under any of the four names for them,
/// in lower case; each that is there is read.
pub proof fn every_named_status_is_read(v: JsonView)
    ensures
        v.text_at("conclusion"@) is Some ==> own_statuses(v).contains(
            text::lowercase(v.text_at("conclusion"@)->0),
        ),
        v.text_at("state"@) is Some ==> own_statuses(v).contains(
            text::lowercase(v.text_at("state"@)->0),
        ),
        v.text_at("bucket"@) is Some ==> own_statuses(v).contains(
            text::lowercase(v.text_at("bucket"@)->0),
        ),
        v.text_at("status"@) is Some ==> own_statuses(v).contains(
            text::lowercase(v.text_at("status"@)->0),
        ),
        own_statuses(v).len() == (if v.text_at("conclusion"@) is Some {
            1int
        } else {
            0
        }) + (if v.text_at("state"@) is Some {
            1int
        } else {
            0
        }) + (if v.text_at("bucket"@) is Some {
            1int
        } else {
            0
        }) + (if v.text_at("status"@) is Some {
            1int
        } else {
            0
        }),
        own_statuses(v).len() == 0 ==> own_check(v).len() == 0,
        own_statuses(v).len() > 0 ==> own_check(v) == seq![own_statuses(v)],
{
    let a = status_at(v, "conclusion"@);
    let b = status_at(v, "state"@);
    let c = status_at(v, "bucket"@);
    let d = status_at(v, "status"@);
    let all = own_statuses(v);
    if a.len() > 0 {
        assert(all[0] == a[0]);
    }
    if b.len() > 0 {
        assert(all[a.len() as int] == b[0]);
    }
    if c.len() > 0 {
        assert(all[(a.len() + b.len()) as int] == c[0]);
    }
    if d.len() > 0 {
        assert(all[(a.len() + b.len() + c.len()) as int] == d[0]);
    }
}

/// Every item of a list and every member of an object is looked into, however
/// deep: the checks in it are among those of the whole.
pub proof fn every_part_is_looked_into(
    items: Seq<JsonView>,
    members: Seq<(Seq<char>, JsonView)>,
    i: int,
    check: Seq<Seq<char>>,
)
    ensures
        0 <= i < items.len() && checks_in(items[i]).contains(check) ==> checks_in(
            JsonView::Array(items),
        ).contains(check),
        0 <= i < members.len() && checks_in(members[i].1).contains(check) ==> checks_in(
            JsonView::Object(members),
        ).contains(check),
        own_check(JsonView::Object(members)).contains(check) ==> checks_in(
            JsonView::Object(members),
        ).contains(check),
{
    lemma_among_items(items, i, check);
    lemma_among_members(members, i, check);
    let own = own_check(JsonView::Object(members));
    let rest = member_checks(members);
    lemma_either_side(own, rest, check);
}

proof fn lemma_either_side(a: Seq<Seq<Seq<char>>>, b: Seq<Seq<Seq<char>>>, x: Seq<Seq<char>>)
    ensures
        a.contains(x) || b.contains(x) ==> (a + b).contains(x),
{
    if a.contains(x) {
        let k = choose|k: int| 0 <= k < a.len() && a[k] == x;
        assert((a + b)[k] == x);
    } else if b.contains(x) {
        let k = choose|k: int| 0 <= k < b.len() && b[k] == x;
        assert((a + b)[a.len() + k] == x);
    }
}

proof fn lemma_among_items(items: Seq<JsonView>, i: int, check: Seq<Seq<char>>)
    ensures
        0 <= i < items.len() && checks_in(items[i]).contains(check) ==> item_checks(items).contains(
            check,
        ),
    decreases items.len(),
{
    if 0 <= i < items.len() {
        let before = items.drop_last();
        if i < before.len() {
            assert(before[i] == items[i]);
            lemma_among_items(before, i, check);
        }
        lemma_either_side(item_checks(before), checks_in(items[items.len() - 1]), check);
    }
}

proof fn lemma_among_members(members: Seq<(Seq<char>, JsonView)>, i: int, check: Seq<Seq<char>>)
    ensures
        0 <= i < members.len() && checks_in(members[i].1).contains(check) ==> member_checks(
            members,
        ).contains(check),
    decreases members.len(),
{
    if 0 <= i < members.len() {
        let before = members.drop_last();
        if i < before.len() {
            assert(before[i] == members[i]);
            lemma_among_members(before, i, check);
        }
        lemma_either_side(member_checks(before), checks_in(members[members.len() - 1].1), check);
    }
}

/// Where there is no document, or none that holds a check, every line that says
/// something is a check, in lower case and in its order.
pub proof fn lines_are_checks_without_a_document(
    document: Option<JsonView>,
    output: Seq<char>,
    rows: Seq<Seq<char>>,
)
    ensures
        document is None ==> reads_as(document, output) == concludes(
            line_checks(text::lines(output)),
        ),
        document is Some && checks_in(document->0).len() == 0 ==> reads_as(document, output)
            == concludes(line_checks(text::lines(output))),
        document is Some && checks_in(document->0).len() != 0 ==> reads_as(document, output)
            == concludes(checks_in(document->0)),
        line_checks(rows) == rows.filter(
            |row: Seq<char>| text::trim(text::lowercase(row)).len() > 0,
        ).map_values(|row: Seq<char>| seq![text::lowercase(row)]),
    decreases rows.len(),
{
    reveal(Seq::filter);
    let said = |row: Seq<char>| text::trim(text::lowercase(row)).len() > 0;
    let low = |row: Seq<char>| seq![text::lowercase(row)];
    if rows.len() > 0 {
        let before = rows.drop_last();
        lines_are_checks_without_a_document(document, output, before);
        assert(before.filter(said).push(rows.last()).map_values(low) =~= before.filter(
            said,
        ).map_values(low).push(low(rows.last())));
    }
    assert(line_checks(rows) =~= rows.filter(said).map_values(low));
}

} // verus!
