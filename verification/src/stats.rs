//! The statistics over all runs of a project.

use vstd::prelude::*;

use crate::text;
use crate::text::{dec_usize, owned, pad_end, pad_start, repeat, same, truncate_chars};

verus! {

/// How many tasks have a status.
#[derive(Debug, PartialEq, Eq)]
pub struct StatusCount {
    pub status: String,
    pub count: usize,
}

pub struct CountView {
    pub status: Seq<char>,
    pub count: nat,
}

impl View for StatusCount {
    type V = CountView;

    open spec fn view(&self) -> CountView {
        CountView { status: self.status@, count: self.count as nat }
    }
}

/// Counts, one by one.
pub open spec fn count_views(list: Seq<StatusCount>) -> Seq<CountView> {
    list.map_values(|c: StatusCount| c@)
}

/// How far one run is.
#[derive(Debug)]
pub struct RunStats {
    pub run_id: String,
    pub goal: String,
    pub verified: usize,
    pub total: usize,
    pub is_complete: bool,
    pub status_counts: Vec<StatusCount>,
}

/// How many of the first `n` runs are complete.
pub open spec fn complete_among(runs: Seq<RunStats>, n: nat) -> nat
    decreases n,
{
    if n == 0 {
        0
    } else {
        complete_among(runs, (n - 1) as nat) + (if runs[n - 1].is_complete {
            1nat
        } else {
            0nat
        })
    }
}

/// How many runs are complete.
pub fn complete_count(runs: &Vec<RunStats>) -> (r: usize)
    ensures
        r == complete_among(runs@, runs@.len()),
        r <= runs@.len(),
{
    let total = runs.len();
    let mut r: usize = 0;
    let mut i: usize = 0;
    while i < total
        invariant
            total == runs@.len(),
            i <= total,
            r == complete_among(runs@, i as nat),
            r <= i,
        decreases total - i,
    {
        if runs[i].is_complete {
            r += 1;
        }
        i += 1;
    }
    r
}

/// The first line of the statistics: how many runs are complete, and the share
/// in whole percent.
pub open spec fn summary_text(complete: nat, total: nat) -> Seq<char> {
    "condukt stats: "@ + text::dec(complete) + "/"@ + text::dec(total) + " complete ("@ + text::dec(
        if total == 0 {
            0
        } else {
            complete * 100 / total
        },
    ) + "%)\n"@
}

/// The first line of the statistics.
pub fn summary_line(complete: usize, total: usize) -> (r: String)
    requires
        complete * 100 <= usize::MAX,
    ensures
        r@ == summary_text(complete as nat, total as nat),
{
    let rate: usize = if total == 0 {
        0
    } else {
        complete * 100 / total
    };
    let mut r = owned("condukt stats: ");
    let c = dec_usize(complete);
    r.push_str(c.as_str());
    r.push_str("/");
    let t = dec_usize(total);
    r.push_str(t.as_str());
    r.push_str(" complete (");
    let p = dec_usize(rate);
    r.push_str(p.as_str());
    r.push_str("%)\n");
    r
}

/// A row of the table: a mark and three columns and the rest.
pub open spec fn row_text(
    head: Seq<char>,
    width: nat,
    done: Seq<char>,
    total: Seq<char>,
    goal: Seq<char>,
) -> Seq<char> {
    text::left_column(head, width) + "  "@ + text::right_column(done, 6) + "  "@
        + text::right_column(total, 6) + "  "@ + goal
}

fn row(head: &str, width: usize, done: &str, total: &str, goal: &str) -> (r: String)
    ensures
        r@ == row_text(head@, width as nat, done@, total@, goal@),
{
    let mut r = pad_end(head, width);
    r.push_str("  ");
    let d = pad_start(done, 6);
    r.push_str(d.as_str());
    r.push_str("  ");
    let t = pad_start(total, 6);
    r.push_str(t.as_str());
    r.push_str("  ");
    r.push_str(goal);
    r
}

/// The two lines over the table.
pub fn header_lines() -> (r: Vec<String>)
    ensures
        text::texts(r@) == seq![
            row_text("run_id"@, 32, "done"@, "total"@, "goal"@),
            text::repeated('-', 72),
        ],
{
    let mut r: Vec<String> = Vec::new();
    r.push(row("run_id", 32, "done", "total", "goal"));
    r.push(repeat('-', 72));
    assert(text::texts(r@) =~= seq![
        row_text("run_id"@, 32, "done"@, "total"@, "goal"@),
        text::repeated('-', 72),
    ]);
    r
}

/// The row of a run: a mark where it is complete, its id, how far it is, and the
/// beginning of its goal.
pub open spec fn stats_text(s: RunStats) -> Seq<char> {
    (if s.is_complete {
        "✓"@
    } else {
        " "@
    }) + " "@ + row_text(
        s.run_id@,
        30,
        text::dec(s.verified as nat),
        text::dec(s.total as nat),
        text::cut(s.goal@, 30),
    )
}

/// The row of a run.
pub fn stats_line(s: &RunStats) -> (r: String)
    ensures
        r@ == stats_text(*s),
{
    let mut r = if s.is_complete {
        owned("✓")
    } else {
        owned(" ")
    };
    r.push_str(" ");
    let done = dec_usize(s.verified);
    let total = dec_usize(s.total);
    let goal = truncate_chars(s.goal.as_str(), 30);
    let rest = row(s.run_id.as_str(), 30, done.as_str(), total.as_str(), goal.as_str());
    r.push_str(rest.as_str());
    r
}

// ---- the distribution ----------------------------------------------------

/// A list of counts with one more added: to the status where it is there, as a
/// new one otherwise.
pub open spec fn with_count(list: Seq<CountView>, c: CountView) -> Seq<CountView>
    decreases list.len(),
{
    if list.len() == 0 {
        seq![c]
    } else if list[0].status == c.status {
        list.update(0, CountView { status: c.status, count: list[0].count + c.count })
    } else {
        seq![list[0]] + with_count(list.skip(1), c)
    }
}

/// A list of counts with all of `more` added.
pub open spec fn with_counts(list: Seq<CountView>, more: Seq<CountView>) -> Seq<CountView>
    decreases more.len(),
{
    if more.len() == 0 {
        list
    } else {
        with_count(with_counts(list, more.drop_last()), more.last())
    }
}

/// The counts of all runs, status by status.
pub open spec fn totals(runs: Seq<RunStats>) -> Seq<CountView>
    decreases runs.len(),
{
    if runs.len() == 0 {
        Seq::empty()
    } else {
        with_counts(totals(runs.drop_last()), count_views(runs.last().status_counts@))
    }
}

/// The sum of a list of counts.
pub open spec fn sum_of(list: Seq<CountView>) -> nat
    decreases list.len(),
{
    if list.len() == 0 {
        0
    } else {
        sum_of(list.drop_last()) + list.last().count
    }
}

/// The sum of the counts of all runs.
pub open spec fn sum_over(runs: Seq<RunStats>) -> nat
    decreases runs.len(),
{
    if runs.len() == 0 {
        0
    } else {
        sum_over(runs.drop_last()) + sum_of(count_views(runs.last().status_counts@))
    }
}

proof fn lemma_sum_splits(a: Seq<CountView>, b: Seq<CountView>)
    ensures
        sum_of(a + b) == sum_of(a) + sum_of(b),
    decreases b.len(),
{
    if b.len() == 0 {
        assert(a + b =~= a);
    } else {
        assert((a + b).drop_last() =~= a + b.drop_last());
        lemma_sum_splits(a, b.drop_last());
    }
}

proof fn lemma_sum_of_one(c: CountView)
    ensures
        sum_of(seq![c]) == c.count,
{
    reveal_with_fuel(sum_of, 2);
}

/// One more count adds exactly itself to the sum.
proof fn lemma_with_count_sum(list: Seq<CountView>, c: CountView)
    ensures
        sum_of(with_count(list, c)) == sum_of(list) + c.count,
    decreases list.len(),
{
    if list.len() == 0 {
        lemma_sum_of_one(c);
    } else {
        let rest = list.skip(1);
        assert(list =~= seq![list[0]] + rest);
        lemma_sum_splits(seq![list[0]], rest);
        if list[0].status == c.status {
            let changed = CountView { status: c.status, count: list[0].count + c.count };
            assert(list.update(0, changed) =~= seq![changed] + rest);
            lemma_sum_splits(seq![changed], rest);
            lemma_sum_of_one(changed);
            lemma_sum_of_one(list[0]);
        } else {
            lemma_with_count_sum(rest, c);
            lemma_sum_splits(seq![list[0]], with_count(rest, c));
        }
    }
}

proof fn lemma_part_of_sum(list: Seq<CountView>, i: int)
    requires
        0 <= i < list.len(),
    ensures
        list[i].count <= sum_of(list),
    decreases list.len(),
{
    if i < list.len() - 1 {
        assert(list.drop_last()[i] == list[i]);
        lemma_part_of_sum(list.drop_last(), i);
    }
}

proof fn lemma_with_count_at(list: Seq<CountView>, c: CountView, i: int)
    requires
        0 <= i < list.len(),
        list[i].status == c.status,
        forall|k: int| 0 <= k < i ==> (#[trigger] list[k]).status != c.status,
    ensures
        with_count(list, c) == list.update(
            i,
            CountView { status: c.status, count: list[i].count + c.count },
        ),
    decreases list.len(),
{
    if i > 0 {
        let rest = list.skip(1);
        assert(list[0].status != c.status);
        assert forall|k: int| 0 <= k < i - 1 implies (#[trigger] rest[k]).status != c.status by {
            assert(rest[k] == list[k + 1]);
        }
        lemma_with_count_at(rest, c, i - 1);
        let changed = CountView { status: c.status, count: list[i].count + c.count };
        assert(seq![list[0]] + rest.update(i - 1, changed) =~= list.update(i, changed));
    }
}

proof fn lemma_with_count_new(list: Seq<CountView>, c: CountView)
    requires
        forall|k: int| 0 <= k < list.len() ==> (#[trigger] list[k]).status != c.status,
    ensures
        with_count(list, c) == list.push(c),
    decreases list.len(),
{
    if list.len() == 0 {
        assert(list.push(c) =~= seq![c]);
    } else {
        let rest = list.skip(1);
        assert forall|k: int| 0 <= k < rest.len() implies (#[trigger] rest[k]).status
            != c.status by {
            assert(rest[k] == list[k + 1]);
        }
        lemma_with_count_new(rest, c);
        assert(seq![list[0]] + rest.push(c) =~= list.push(c));
    }
}

fn add_count(list: &mut Vec<StatusCount>, c: &StatusCount)
    requires
        sum_of(count_views(old(list)@)) + c.count <= usize::MAX,
    ensures
        count_views(final(list)@) == with_count(count_views(old(list)@), c@),
{
    let ghost all = count_views(list@);
    let mut i: usize = 0;
    while i < list.len()
        invariant
            *list == *old(list),
            all == count_views(list@),
            sum_of(all) + c.count <= usize::MAX,
            i <= list@.len(),
            forall|k: int| 0 <= k < i ==> (#[trigger] all[k]).status != c@.status,
        decreases list@.len() - i,
    {
        assert(all[i as int] == list@[i as int]@);
        if same(&list[i].status, c.status.as_str()) {
            proof {
                lemma_part_of_sum(all, i as int);
                lemma_with_count_at(all, c@, i as int);
            }
            let changed = StatusCount {
                status: list[i].status.clone(),
                count: list[i].count + c.count,
            };
            let ghost now = changed@;
            list.set(i, changed);
            assert(count_views(list@) =~= all.update(i as int, now));
            return;
        }
        i += 1;
    }
    proof {
        lemma_with_count_new(all, c@);
    }
    let added = StatusCount { status: c.status.clone(), count: c.count };
    let ghost now = added@;
    list.push(added);
    assert(count_views(list@) =~= all.push(now));
}

proof fn lemma_counts_sum(list: Seq<CountView>, more: Seq<CountView>)
    ensures
        sum_of(with_counts(list, more)) == sum_of(list) + sum_of(more),
    decreases more.len(),
{
    if more.len() > 0 {
        lemma_counts_sum(list, more.drop_last());
        lemma_with_count_sum(with_counts(list, more.drop_last()), more.last());
    }
}

proof fn lemma_sum_grows(list: Seq<CountView>, n: int)
    requires
        0 <= n <= list.len(),
    ensures
        sum_of(list.take(n)) <= sum_of(list),
    decreases list.len(),
{
    if n < list.len() {
        assert(list.drop_last().take(n) =~= list.take(n));
        lemma_sum_grows(list.drop_last(), n);
    } else {
        assert(list.take(n) =~= list);
    }
}

proof fn lemma_runs_grow(runs: Seq<RunStats>, n: int)
    requires
        0 <= n <= runs.len(),
    ensures
        sum_over(runs.take(n)) <= sum_over(runs),
    decreases runs.len(),
{
    if n < runs.len() {
        assert(runs.drop_last().take(n) =~= runs.take(n));
        lemma_runs_grow(runs.drop_last(), n);
    } else {
        assert(runs.take(n) =~= runs);
    }
}

/// The totals lose nothing: they add up to what the runs add up to.
pub proof fn totals_lose_nothing(runs: Seq<RunStats>)
    ensures
        sum_of(totals(runs)) == sum_over(runs),
    decreases runs.len(),
{
    if runs.len() > 0 {
        totals_lose_nothing(runs.drop_last());
        lemma_counts_sum(
            totals(runs.drop_last()),
            count_views(runs.last().status_counts@),
        );
    }
}

/// How many tasks of all runs have each status, in the order in which the
/// statuses come up.
pub fn status_totals(runs: &Vec<RunStats>) -> (r: Vec<StatusCount>)
    requires
        sum_over(runs@) <= usize::MAX,
    ensures
        count_views(r@) == totals(runs@),
{
    let mut out: Vec<StatusCount> = Vec::new();
    assert(count_views(out@) =~= totals(runs@.take(0)));
    let mut i: usize = 0;
    while i < runs.len()
        invariant
            sum_over(runs@) <= usize::MAX,
            i <= runs@.len(),
            count_views(out@) == totals(runs@.take(i as int)),
        decreases runs@.len() - i,
    {
        let ghost upto = runs@.take(i as int + 1);
        assert(upto.drop_last() =~= runs@.take(i as int));
        assert(upto.last() == runs@[i as int]);
        let counts = &runs[i].status_counts;
        let ghost start = count_views(out@);
        let ghost more = count_views(counts@);
        proof {
            totals_lose_nothing(runs@.take(i as int));
            lemma_runs_grow(runs@, i as int + 1);
            assert(more.take(0) =~= Seq::empty());
        }
        let mut j: usize = 0;
        while j < counts.len()
            invariant
                more == count_views(counts@),
                sum_of(start) + sum_of(more) <= usize::MAX,
                j <= counts@.len(),
                count_views(out@) == with_counts(start, more.take(j as int)),
            decreases counts@.len() - j,
        {
            let ghost part = more.take(j as int + 1);
            proof {
                assert(part.drop_last() =~= more.take(j as int));
                assert(part.last() == counts@[j as int]@);
                lemma_counts_sum(start, more.take(j as int));
                lemma_sum_grows(more, j as int + 1);
            }
            add_count(&mut out, &counts[j]);
            j += 1;
        }
        assert(more.take(j as int) =~= more);
        i += 1;
    }
    assert(runs@.take(i as int) =~= runs@);
    out
}

/// `x` put behind everything that is at least as frequent.
pub open spec fn rank(sorted: Seq<CountView>, x: CountView) -> Seq<CountView>
    decreases sorted.len(),
{
    if sorted.len() == 0 || sorted.last().count >= x.count {
        sorted.push(x)
    } else {
        rank(sorted.drop_last(), x).push(sorted.last())
    }
}

/// Counts with the most frequent first. What is equally frequent keeps its order.
pub open spec fn ranked(list: Seq<CountView>) -> Seq<CountView>
    decreases list.len(),
{
    if list.len() == 0 {
        Seq::empty()
    } else {
        rank(ranked(list.drop_last()), list.last())
    }
}

proof fn lemma_rank_is_insert(sorted: Seq<CountView>, x: CountView, k: int)
    requires
        0 <= k <= sorted.len(),
        k > 0 ==> sorted[k - 1].count >= x.count,
        forall|i: int| k <= i < sorted.len() ==> (#[trigger] sorted[i]).count < x.count,
    ensures
        rank(sorted, x) == sorted.insert(k, x),
    decreases sorted.len(),
{
    if k == sorted.len() {
        assert(sorted.insert(k, x) =~= sorted.push(x));
    } else {
        assert(sorted[sorted.len() - 1].count < x.count);
        let init = sorted.drop_last();
        assert forall|i: int| k <= i < init.len() implies (#[trigger] init[i]).count < x.count by {
            assert(init[i] == sorted[i]);
        }
        lemma_rank_is_insert(init, x, k);
        assert(init.insert(k, x).push(sorted.last()) =~= sorted.insert(k, x));
    }
}

/// The counts with the most frequent first.
pub fn by_frequency(list: Vec<StatusCount>) -> (r: Vec<StatusCount>)
    ensures
        count_views(r@) == ranked(count_views(list@)),
{
    let ghost all = count_views(list@);
    let mut out: Vec<StatusCount> = Vec::new();
    assert(count_views(out@) =~= ranked(all.take(0)));
    let mut i: usize = 0;
    while i < list.len()
        invariant
            all == count_views(list@),
            i <= list@.len(),
            count_views(out@) == ranked(all.take(i as int)),
        decreases list@.len() - i,
    {
        let ghost upto = all.take(i as int + 1);
        assert(upto.drop_last() =~= all.take(i as int));
        assert(upto.last() == list@[i as int]@);
        let x = StatusCount { status: list[i].status.clone(), count: list[i].count };
        let ghost sorted = count_views(out@);
        let ghost added = x@;
        let mut k: usize = out.len();
        while k > 0 && out[k - 1].count < x.count
            invariant
                sorted == count_views(out@),
                added == x@,
                k <= out@.len(),
                forall|j: int| k <= j < out@.len() ==> (#[trigger] sorted[j]).count < added.count,
            decreases k,
        {
            assert(sorted[k - 1] == out@[k - 1]@);
            k -= 1;
        }
        proof {
            if k > 0 {
                assert(sorted[k - 1] == out@[k - 1]@);
            }
            lemma_rank_is_insert(sorted, added, k as int);
        }
        out.insert(k, x);
        assert(count_views(out@) =~= sorted.insert(k as int, added));
        i += 1;
    }
    assert(all.take(i as int) =~= all);
    out
}

/// The line of a status.
pub open spec fn count_text(c: CountView) -> Seq<char> {
    "  "@ + c.status + ": "@ + text::dec(c.count)
}

/// The line of a status.
pub fn count_line(c: &StatusCount) -> (r: String)
    ensures
        r@ == count_text(c@),
{
    let mut r = owned("  ");
    r.push_str(c.status.as_str());
    r.push_str(": ");
    let n = dec_usize(c.count);
    r.push_str(n.as_str());
    r
}

// ---- laws ----------------------------------------------------------------

/// A share of runs is never more than all of them.
pub proof fn complete_is_a_share(runs: Seq<RunStats>, n: nat)
    ensures
        complete_among(runs, n) <= n,
    decreases n,
{
    if n > 0 {
        complete_is_a_share(runs, (n - 1) as nat);
    }
}

/// The most frequent status comes first, and none is lost.
pub proof fn ranking_is_by_frequency(list: Seq<CountView>)
    ensures
        ranked(list).to_multiset() == list.to_multiset(),
        forall|i: int, j: int|
            0 <= i < j < ranked(list).len() ==> (#[trigger] ranked(list)[i]).count >= (
            #[trigger] ranked(list)[j]).count,
    decreases list.len(),
{
    if list.len() == 0 {
        assert(ranked(list) =~= list);
    } else {
        let init = list.drop_last();
        ranking_is_by_frequency(init);
        lemma_rank(ranked(init), list.last());
        assert(init.push(list.last()) =~= list);
        broadcast use vstd::seq_lib::group_to_multiset_ensures;
        assert(list.to_multiset() == init.to_multiset().insert(list.last()));
    }
}

proof fn lemma_rank(sorted: Seq<CountView>, x: CountView)
    requires
        forall|i: int, j: int|
            0 <= i < j < sorted.len() ==> (#[trigger] sorted[i]).count >= (
            #[trigger] sorted[j]).count,
    ensures
        rank(sorted, x).to_multiset() == sorted.to_multiset().insert(x),
        forall|i: int, j: int|
            0 <= i < j < rank(sorted, x).len() ==> (#[trigger] rank(sorted, x)[i]).count >= (
            #[trigger] rank(sorted, x)[j]).count,
        forall|i: int|
            0 <= i < rank(sorted, x).len() ==> (#[trigger] rank(sorted, x)[i]) == x || exists|
                k: int,
            |
                0 <= k < sorted.len() && #[trigger] sorted[k] == rank(sorted, x)[i],
    decreases sorted.len(),
{
    broadcast use vstd::seq_lib::group_to_multiset_ensures;

    let after = rank(sorted, x);
    if sorted.len() == 0 || sorted.last().count >= x.count {
        assert forall|i: int| 0 <= i < after.len() implies (#[trigger] after[i]) == x || exists|
            k: int,
        |
            0 <= k < sorted.len() && #[trigger] sorted[k] == after[i] by {
            if i < sorted.len() {
                assert(sorted[i] == after[i]);
            }
        }
        assert forall|i: int, j: int| 0 <= i < j < after.len() implies (
        #[trigger] after[i]).count >= (#[trigger] after[j]).count by {
            if j == sorted.len() && i < sorted.len() - 1 {
                assert(sorted[i].count >= sorted[sorted.len() - 1].count);
            }
        }
    } else {
        let init = sorted.drop_last();
        let last = sorted.last();
        lemma_rank(init, x);
        let inner = rank(init, x);
        assert(init.push(last) =~= sorted);
        assert(sorted.to_multiset() == init.to_multiset().insert(last));
        assert(after.to_multiset() == inner.to_multiset().insert(last));
        assert(init.to_multiset().insert(x).insert(last) =~= init.to_multiset().insert(
            last,
        ).insert(x));
        assert forall|i: int, j: int| 0 <= i < j < after.len() implies (
        #[trigger] after[i]).count >= (#[trigger] after[j]).count by {
            if j == after.len() - 1 {
                assert(after[i] == inner[i]);
                if inner[i] != x {
                    let k = choose|k: int| 0 <= k < init.len() && #[trigger] init[k] == inner[i];
                    assert(sorted[k] == init[k]);
                    assert(sorted[k].count >= sorted[sorted.len() - 1].count);
                }
            } else {
                assert(after[i] == inner[i]);
                assert(after[j] == inner[j]);
            }
        }
        assert forall|i: int| 0 <= i < after.len() implies (#[trigger] after[i]) == x || exists|
            k: int,
        |
            0 <= k < sorted.len() && #[trigger] sorted[k] == after[i] by {
            if i < inner.len() {
                assert(after[i] == inner[i]);
                if inner[i] != x {
                    let k = choose|k: int| 0 <= k < init.len() && #[trigger] init[k] == inner[i];
                    assert(sorted[k] == after[i]);
                }
            } else {
                assert(sorted[sorted.len() - 1] == after[i]);
            }
        }
    }
}

/// The complete runs are counted one by one.
pub proof fn complete_runs_are_counted(runs: Seq<RunStats>, n: nat)
    requires
        n <= runs.len(),
    ensures
        complete_among(runs, n) == runs.take(n as int).filter(|s: RunStats| s.is_complete).len(),
    decreases n,
{
    reveal(Seq::filter);
    if n > 0 {
        complete_runs_are_counted(runs, (n - 1) as nat);
        assert(runs.take(n as int).drop_last() =~= runs.take(n - 1));
        assert(runs.take(n as int).last() == runs[n - 1]);
    }
}

/// How many a list counts of one status.
pub open spec fn counted_of(list: Seq<CountView>, status: Seq<char>) -> nat
    decreases list.len(),
{
    if list.len() == 0 {
        0
    } else {
        counted_of(list.drop_last(), status) + (if list.last().status == status {
            list.last().count
        } else {
            0
        })
    }
}

proof fn lemma_counted_splits(a: Seq<CountView>, b: Seq<CountView>, status: Seq<char>)
    ensures
        counted_of(a + b, status) == counted_of(a, status) + counted_of(b, status),
    decreases b.len(),
{
    if b.len() == 0 {
        assert(a + b =~= a);
    } else {
        assert((a + b).drop_last() =~= a + b.drop_last());
        assert((a + b).last() == b.last());
        lemma_counted_splits(a, b.drop_last(), status);
    }
}

proof fn lemma_counted_one(c: CountView, status: Seq<char>)
    ensures
        counted_of(seq![c], status) == (if c.status == status {
            c.count
        } else {
            0
        }),
{
    let none = seq![c].drop_last();
    assert(none =~= Seq::<CountView>::empty());
    assert(counted_of(none, status) == 0);
    assert(seq![c].last() == c);
}

proof fn lemma_counted_with_count(list: Seq<CountView>, c: CountView, status: Seq<char>)
    ensures
        counted_of(with_count(list, c), status) == counted_of(list, status) + (if c.status
            == status {
            c.count
        } else {
            0
        }),
    decreases list.len(),
{
    if list.len() == 0 {
        lemma_counted_one(c, status);
    } else {
        let rest = list.skip(1);
        assert(list =~= seq![list[0]] + rest);
        lemma_counted_splits(seq![list[0]], rest, status);
        lemma_counted_one(list[0], status);
        if list[0].status == c.status {
            let more = CountView { status: c.status, count: list[0].count + c.count };
            assert(with_count(list, c) =~= seq![more] + rest);
            lemma_counted_splits(seq![more], rest, status);
            lemma_counted_one(more, status);
        } else {
            lemma_counted_with_count(rest, c, status);
            lemma_counted_splits(seq![list[0]], with_count(rest, c), status);
        }
    }
}

proof fn lemma_counted_with_counts(list: Seq<CountView>, more: Seq<CountView>, status: Seq<char>)
    ensures
        counted_of(with_counts(list, more), status) == counted_of(list, status) + counted_of(
            more,
            status,
        ),
    decreases more.len(),
{
    if more.len() > 0 {
        lemma_counted_with_counts(list, more.drop_last(), status);
        lemma_counted_with_count(with_counts(list, more.drop_last()), more.last(), status);
    }
}

/// One more run adds to each status what it counts of it, and nothing of any
/// other; without runs nothing is counted.
pub proof fn totals_add_up_by_status(runs: Seq<RunStats>, s: RunStats, status: Seq<char>)
    ensures
        totals(Seq::empty()).len() == 0,
        counted_of(totals(runs.push(s)), status) == counted_of(totals(runs), status) + counted_of(
            count_views(s.status_counts@),
            status,
        ),
{
    assert(runs.push(s).drop_last() =~= runs);
    assert(runs.push(s).last() == s);
    lemma_counted_with_counts(totals(runs), count_views(s.status_counts@), status);
}

/// Each status has one total.
pub proof fn a_status_has_one_total(runs: Seq<RunStats>)
    ensures
        forall|i: int, j: int|
            0 <= i < j < totals(runs).len() ==> (#[trigger] totals(runs)[i]).status != (
            #[trigger] totals(runs)[j]).status,
    decreases runs.len(),
{
    if runs.len() > 0 {
        a_status_has_one_total(runs.drop_last());
        lemma_counts_stay_apart(
            totals(runs.drop_last()),
            count_views(runs.last().status_counts@),
        );
    }
}

proof fn lemma_counts_stay_apart(list: Seq<CountView>, more: Seq<CountView>)
    requires
        forall|i: int, j: int|
            0 <= i < j < list.len() ==> (#[trigger] list[i]).status != (#[trigger] list[j]).status,
    ensures
        forall|i: int, j: int|
            0 <= i < j < with_counts(list, more).len() ==> (#[trigger] with_counts(
                list,
                more,
            )[i]).status != (#[trigger] with_counts(list, more)[j]).status,
    decreases more.len(),
{
    if more.len() > 0 {
        lemma_counts_stay_apart(list, more.drop_last());
        let before = with_counts(list, more.drop_last());
        let c = more.last();
        if exists|i: int| 0 <= i < before.len() && (#[trigger] before[i]).status == c.status {
            let i = choose|i: int| 0 <= i < before.len() && (#[trigger] before[i]).status
                == c.status;
            lemma_with_count_at(before, c, i);
        } else {
            lemma_with_count_new(before, c);
        }
    }
}

/// The ranking keeps the order of those that are as frequent: those of one count
/// stand as they stood.
pub proof fn equals_keep_their_order(list: Seq<CountView>, n: nat)
    ensures
        ranked(list).filter(|c: CountView| c.count == n) == list.filter(
            |c: CountView| c.count == n,
        ),
    decreases list.len(),
{
    reveal(Seq::filter);
    let same = |c: CountView| c.count == n;
    if list.len() > 0 {
        let before = list.drop_last();
        equals_keep_their_order(before, n);
        ranking_is_by_frequency(before);
        lemma_rank_filtered(ranked(before), list.last(), n);
    }
    assert(ranked(list).filter(same) =~= list.filter(same));
}

proof fn lemma_rank_filtered(sorted: Seq<CountView>, x: CountView, n: nat)
    requires
        forall|i: int, j: int|
            0 <= i < j < sorted.len() ==> (#[trigger] sorted[i]).count >= (
            #[trigger] sorted[j]).count,
    ensures
        rank(sorted, x).filter(|c: CountView| c.count == n) == (if x.count == n {
            sorted.filter(|c: CountView| c.count == n).push(x)
        } else {
            sorted.filter(|c: CountView| c.count == n)
        }),
    decreases sorted.len(),
{
    reveal(Seq::filter);
    let same = |c: CountView| c.count == n;
    if sorted.len() == 0 || sorted.last().count >= x.count {
        assert(sorted.push(x).drop_last() =~= sorted);
    } else {
        let before = sorted.drop_last();
        assert forall|i: int, j: int| 0 <= i < j < before.len() implies (
        #[trigger] before[i]).count >= (#[trigger] before[j]).count by {
            assert(before[i] == sorted[i] && before[j] == sorted[j]);
        }
        lemma_rank_filtered(before, x, n);
        let front = rank(before, x);
        assert(front.push(sorted.last()).drop_last() =~= front);
    }
}

/// A run is marked in the list exactly where it is complete.
pub proof fn a_complete_run_is_marked(s: RunStats)
    ensures
        stats_text(s)[0] == '✓' <==> s.is_complete,
        stats_text(s)[0] == ' ' <==> !s.is_complete,
        text::holds_text(stats_text(s), s.run_id@),
{
    reveal_strlit("✓");
    reveal_strlit(" ");
    let mark = if s.is_complete {
        "✓"@
    } else {
        " "@
    };
    let pad = text::repeated(' ', text::lacking(s.run_id@, 30));
    let rest = "  "@ + text::right_column(text::dec(s.verified as nat), 6) + "  "@
        + text::right_column(text::dec(s.total as nat), 6) + "  "@ + text::cut(s.goal@, 30);
    text::a_text_holds_its_parts(mark + " "@, s.run_id@, pad + rest, s.run_id@);
    assert(stats_text(s) =~= (mark + " "@) + s.run_id@ + (pad + rest));
}

/// The share of complete runs is told as a whole percentage, which is from none
/// to all; without runs it is none.
pub proof fn the_share_is_a_percentage(complete: nat, total: nat)
    requires
        complete <= total,
    ensures
        total > 0 ==> text::holds_text(summary_text(complete, total), text::dec(
            complete * 100 / total,
        )) && complete * 100 / total <= 100,
        total == 0 ==> text::holds_text(summary_text(complete, total), text::dec(0)),
{
    let share: nat = if total == 0 {
        0
    } else {
        complete * 100 / total
    };
    let front = "condukt stats: "@ + text::dec(complete) + "/"@ + text::dec(total)
        + " complete ("@;
    text::a_text_holds_its_parts(front, text::dec(share), "%)\n"@, text::dec(share));
    if total > 0 {
        assert(complete * 100 / total <= 100) by (nonlinear_arith)
            requires
                complete <= total,
                total > 0,
        ;
    }
}

} // verus!
