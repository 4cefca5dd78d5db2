//! Whether runs that were given a lesson replan less than runs that were not.

use vstd::prelude::*;

use crate::text::same_str;

verus! {

/// That a run looked for a lesson, and whether it found one.
#[derive(Debug)]
pub struct RetrievalEvent {
    pub run_id: String,
    pub hit: bool,
}

pub struct EventView {
    pub run_id: Seq<char>,
    pub hit: bool,
}

impl View for RetrievalEvent {
    type V = EventView;

    open spec fn view(&self) -> EventView {
        EventView { run_id: self.run_id@, hit: self.hit }
    }
}

/// Events, one by one.
pub open spec fn event_views(events: Seq<RetrievalEvent>) -> Seq<EventView> {
    events.map_values(|e: RetrievalEvent| e@)
}

/// How often two groups of runs replanned: those that found a lesson and those
/// that did not. The mean of a group is its total over its size.
#[derive(Debug, PartialEq, Eq)]
pub struct LearningSignal {
    pub hit_total: u128,
    pub hit_sample_size: usize,
    pub miss_total: u128,
    pub miss_sample_size: usize,
}

/// No later event is about the same run, so this one says which group the run
/// belongs to.
pub open spec fn decides(events: Seq<EventView>, i: int) -> bool {
    forall|j: int| i < j < events.len() ==> (#[trigger] events[j]).run_id != events[i].run_id
}

/// Event `i` puts its run into the group of `hit`.
pub open spec fn in_group(events: Seq<EventView>, hit: bool, i: int) -> bool {
    events[i].hit == hit && decides(events, i)
}

/// How many of the first `n` events put a run into the group of `hit`.
pub open spec fn group_size(events: Seq<EventView>, hit: bool, n: nat) -> nat
    decreases n,
{
    if n == 0 {
        0
    } else {
        group_size(events, hit, (n - 1) as nat) + (if in_group(events, hit, n - 1) {
            1nat
        } else {
            0nat
        })
    }
}

/// How often the runs replanned that the first `n` events put into the group of
/// `hit`. `answers` says of each event how often its run replanned.
pub open spec fn group_total(
    events: Seq<EventView>,
    hit: bool,
    answers: Seq<usize>,
    n: nat,
) -> nat
    decreases n,
{
    if n == 0 {
        0
    } else {
        group_total(events, hit, answers, (n - 1) as nat) + (if in_group(events, hit, n - 1) {
            answers[n - 1] as nat
        } else {
            0nat
        })
    }
}

/// `f` may say `n` of the run `run_id`.
pub open spec fn may_say<F: Fn(&str) -> usize>(f: F, run_id: Seq<char>, n: usize) -> bool {
    exists|run: &str| #[trigger] call_ensures(f, (run,), n) && run@ == run_id
}

/// There is one answer to each event, and each is what `f` may say of its run.
pub open spec fn asked_of_each<F: Fn(&str) -> usize>(
    f: F,
    events: Seq<EventView>,
    answers: Seq<usize>,
) -> bool {
    answers.len() == events.len() && forall|i: int|
        0 <= i < events.len() ==> may_say(f, (#[trigger] events[i]).run_id, answers[i])
}

/// What `replans` says of the run of each event.
pub open spec fn answers_by(
    events: Seq<EventView>,
    replans: spec_fn(Seq<char>) -> usize,
) -> Seq<usize> {
    events.map_values(|e: EventView| replans(e.run_id))
}

/// `f` says of every run how often it replanned.
pub open spec fn counts<F: Fn(&str) -> usize>(f: F, replans: spec_fn(Seq<char>) -> usize) -> bool {
    forall|run: &str, n: usize| #[trigger] call_ensures(f, (run,), n) ==> n == replans(run@)
}

/// Whether event `i` is the last one about its run.
fn is_last(events: &Vec<RetrievalEvent>, i: usize) -> (r: bool)
    requires
        i < events@.len(),
    ensures
        r == decides(event_views(events@), i as int),
{
    let ghost all = event_views(events@);
    assert(all[i as int] == events@[i as int]@);
    let total = events.len();
    let mut j: usize = i + 1;
    while j < total
        invariant
            total == events@.len(),
            all == event_views(events@),
            i < j <= events@.len(),
            all[i as int] == events@[i as int]@,
            forall|k: int| i < k < j ==> (#[trigger] all[k]).run_id != all[i as int].run_id,
        decreases events@.len() - j,
    {
        assert(all[j as int] == events@[j as int]@);
        if same_str(events[j].run_id.as_str(), events[i].run_id.as_str()) {
            return false;
        }
        j += 1;
    }
    true
}

/// A total over the first `n` events does not depend on later answers.
proof fn lemma_total_reads_so_far(
    events: Seq<EventView>,
    hit: bool,
    one: Seq<usize>,
    other: Seq<usize>,
    n: nat,
)
    requires
        forall|k: int| 0 <= k < n ==> one[k] == other[k],
    ensures
        group_total(events, hit, one, n) == group_total(events, hit, other, n),
    decreases n,
{
    if n > 0 {
        lemma_total_reads_so_far(events, hit, one, other, (n - 1) as nat);
    }
}

/// Puts the runs into two groups and adds up how often each group replanned. A
/// run that occurs more than once belongs where its last event puts it, and
/// counts once. `replan_total_for_run` says how often a run replanned, and is
/// asked once for each event, in order; where a run occurs more than once, the
/// last answer counts.
pub fn aggregate<F: Fn(&str) -> usize>(events: &Vec<RetrievalEvent>, replan_total_for_run: F) -> (r:
    LearningSignal)
    requires
        forall|run: &str| call_requires(replan_total_for_run, (run,)),
    ensures
        r.hit_sample_size == group_size(event_views(events@), true, events@.len()),
        r.miss_sample_size == group_size(event_views(events@), false, events@.len()),
        exists|answers: Seq<usize>| #[trigger]
            asked_of_each(replan_total_for_run, event_views(events@), answers) && r.hit_total
                == group_total(event_views(events@), true, answers, events@.len()) && r.miss_total
                == group_total(event_views(events@), false, answers, events@.len()),
        forall|replans: spec_fn(Seq<char>) -> usize| #[trigger]
            counts(replan_total_for_run, replans) ==> r.hit_total == group_total(
                event_views(events@),
                true,
                answers_by(event_views(events@), replans),
                events@.len(),
            ) && r.miss_total == group_total(
                event_views(events@),
                false,
                answers_by(event_views(events@), replans),
                events@.len(),
            ),
{
    let ghost all = event_views(events@);
    let ghost mut answers: Seq<usize> = Seq::empty();
    let total = events.len();
    let mut hit_total: u128 = 0;
    let mut hit_sample_size: usize = 0;
    let mut miss_total: u128 = 0;
    let mut miss_sample_size: usize = 0;
    let mut i: usize = 0;
    while i < events.len()
        invariant
            all == event_views(events@),
            total == events@.len(),
            i <= total,
            forall|run: &str| call_requires(replan_total_for_run, (run,)),
            hit_sample_size == group_size(all, true, i as nat),
            miss_sample_size == group_size(all, false, i as nat),
            hit_sample_size <= i,
            miss_sample_size <= i,
            hit_total <= i * (usize::MAX as int),
            miss_total <= i * (usize::MAX as int),
            answers.len() == i,
            forall|k: int|
                0 <= k < i ==> may_say(replan_total_for_run, (#[trigger] all[k]).run_id, answers[k]),
            hit_total == group_total(all, true, answers, i as nat),
            miss_total == group_total(all, false, answers, i as nat),
        decreases total - i,
    {
        assert(all[i as int] == events@[i as int]@);
        assert(i * (usize::MAX as int) + usize::MAX == (i + 1) * (usize::MAX as int))
            by (nonlinear_arith);
        assert((i + 1) * (usize::MAX as int) <= u128::MAX) by (nonlinear_arith)
            requires
                0 <= i + 1 <= 0xffff_ffff_ffff_ffff,
                0 <= usize::MAX <= 0xffff_ffff_ffff_ffff,
        ;
        let n = replan_total_for_run(events[i].run_id.as_str());
        proof {
            let before = answers;
            answers = before.push(n);
            lemma_total_reads_so_far(all, true, before, answers, i as nat);
            lemma_total_reads_so_far(all, false, before, answers, i as nat);
        }
        if is_last(events, i) {
            if events[i].hit {
                hit_total += n as u128;
                hit_sample_size += 1;
            } else {
                miss_total += n as u128;
                miss_sample_size += 1;
            }
        }
        i += 1;
    }
    proof {
        assert(asked_of_each(replan_total_for_run, all, answers));
        assert forall|replans: spec_fn(Seq<char>) -> usize| #[trigger]
            counts(replan_total_for_run, replans) implies answers == answers_by(all, replans) by {
            assert forall|k: int| 0 <= k < answers.len() implies answers[k] == replans(
                all[k].run_id,
            ) by {
                assert(may_say(replan_total_for_run, all[k].run_id, answers[k]));
            }
            assert(answers =~= answers_by(all, replans));
        }
    }
    LearningSignal { hit_total, hit_sample_size, miss_total, miss_sample_size }
}

impl LearningSignal {
    /// Whether the two means can be compared: both groups have runs, and those
    /// that found no lesson replanned at all.
    pub fn has_ratio(&self) -> (r: bool)
        ensures
            r == (self.hit_sample_size > 0 && self.miss_sample_size > 0 && self.miss_total > 0),
    {
        self.hit_sample_size > 0 && self.miss_sample_size > 0 && self.miss_total > 0
    }
}

// ---- laws ----------------------------------------------------------------

/// Every run that occurs is put into a group by exactly one event, so it counts
/// once however often it occurs.
pub proof fn every_run_counts_once(events: Seq<EventView>, i: int)
    requires
        0 <= i < events.len(),
    ensures
        exists|j: int|
            i <= j < events.len() && events[j].run_id == events[i].run_id && #[trigger] decides(
                events,
                j,
            ),
        forall|j: int, k: int|
            0 <= j < events.len() && 0 <= k < events.len() && #[trigger] decides(events, j)
                && #[trigger] decides(events, k) && events[j].run_id == events[k].run_id ==> j == k,
    decreases events.len() - i,
{
    if !decides(events, i) {
        let later = choose|j: int|
            i < j < events.len() && (#[trigger] events[j]).run_id == events[i].run_id;
        every_run_counts_once(events, later);
    }
    assert forall|j: int, k: int|
        0 <= j < events.len() && 0 <= k < events.len() && #[trigger] decides(events, j)
            && #[trigger] decides(events, k) && events[j].run_id == events[k].run_id implies j
        == k by {
        if j < k {
            assert(events[k].run_id != events[j].run_id);
        } else if k < j {
            assert(events[j].run_id != events[k].run_id);
        }
    }
}

/// The two groups never hold more runs than there are events.
pub proof fn groups_are_bounded(events: Seq<EventView>, n: nat)
    ensures
        group_size(events, true, n) + group_size(events, false, n) <= n,
    decreases n,
{
    if n > 0 {
        groups_are_bounded(events, (n - 1) as nat);
    }
}

/// A group counts the runs whose last event is of its kind, each once: the places
/// at which an event of the kind stands that no later event of its run follows.
pub proof fn a_group_counts_last_events(events: Seq<EventView>, hit: bool, n: nat)
    requires
        n <= events.len(),
    ensures
        ({
            let places = Set::new(
                |i: int|
                    0 <= i < n && events[i].hit == hit && forall|j: int|
                        i < j < events.len() ==> (#[trigger] events[j]).run_id != events[i].run_id,
            );
            places.finite() && group_size(events, hit, n) == places.len()
        }),
    decreases n,
{
    let places = Set::new(
        |i: int|
            0 <= i < n && events[i].hit == hit && forall|j: int|
                i < j < events.len() ==> (#[trigger] events[j]).run_id != events[i].run_id,
    );
    if n == 0 {
        assert(places =~= Set::<int>::empty());
    } else {
        let m = (n - 1) as nat;
        a_group_counts_last_events(events, hit, m);
        let before = Set::new(
            |i: int|
                0 <= i < m && events[i].hit == hit && forall|j: int|
                    i < j < events.len() ==> (#[trigger] events[j]).run_id != events[i].run_id,
        );
        if in_group(events, hit, n - 1) {
            assert(places =~= before.insert(n - 1));
        } else {
            assert(places =~= before);
        }
    }
}

/// What was asked of a run counts exactly where its event is the last of the run
/// and of the kind of the group: another answer there changes the total by as
/// much, and any other answer changes nothing. Without any, the total is zero.
pub proof fn an_answer_counts_where_its_event_decides(
    events: Seq<EventView>,
    hit: bool,
    answers: Seq<usize>,
    i: int,
    other: usize,
    n: nat,
)
    requires
        answers.len() == events.len(),
        0 <= i < n <= events.len(),
    ensures
        ({
            let counted = events[i].hit == hit && forall|j: int|
                i < j < events.len() ==> (#[trigger] events[j]).run_id != events[i].run_id;
            let total = group_total(events, hit, answers, n);
            let changed = group_total(events, hit, answers.update(i, other), n);
            &&& counted ==> changed - total == other - answers[i]
            &&& !counted ==> changed == total
        }),
        (forall|k: int| 0 <= k < n ==> #[trigger] answers[k] == 0) ==> group_total(
            events,
            hit,
            answers,
            n,
        ) == 0,
    decreases n,
{
    let m = (n - 1) as nat;
    let changed = answers.update(i, other);
    if i < m {
        an_answer_counts_where_its_event_decides(events, hit, answers, i, other, m);
    } else {
        lemma_total_reads_so_far(events, hit, answers, changed, m);
    }
    if forall|k: int| 0 <= k < n ==> #[trigger] answers[k] == 0 {
        lemma_no_answers(events, hit, answers, n);
    }
}

proof fn lemma_no_answers(events: Seq<EventView>, hit: bool, answers: Seq<usize>, n: nat)
    requires
        forall|k: int| 0 <= k < n ==> #[trigger] answers[k] == 0,
    ensures
        group_total(events, hit, answers, n) == 0,
    decreases n,
{
    if n > 0 {
        lemma_no_answers(events, hit, answers, (n - 1) as nat);
        assert(answers[n - 1] == 0);
    }
}

/// A count of plans by run is what is answered for each run, event by event.
pub proof fn each_event_is_answered_for_its_run<F: Fn(&str) -> usize>(
    f: F,
    events: Seq<EventView>,
    replans: spec_fn(Seq<char>) -> usize,
    answers: Seq<usize>,
    i: int,
)
    requires
        0 <= i < events.len(),
        asked_of_each(f, events, answers),
        counts(f, replans),
    ensures
        answers.len() == events.len(),
        answers[i] == replans(events[i].run_id),
        answers_by(events, replans).len() == events.len(),
        answers_by(events, replans)[i] == replans(events[i].run_id),
{
    assert(may_say(f, events[i].run_id, answers[i]));
}

} // verus!
