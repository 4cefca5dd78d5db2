//! Multi-sample self-consistency: several candidate implementations of one task
//! are verified, and the verdicts are put to a majority vote.
//!
//! [`tally`] turns the verdicts into a winner and an escalation decision. Low
//! agreement, a tie, no passing candidate or a verdict that never arrived all
//! escalate. Whether an agreement rate lies below the threshold is a question
//! about fractions, which the caller answers in an [`Agreement`].

use vstd::multiset::Multiset;
use vstd::prelude::*;

use crate::text::{dec_usize, is_before, lists, lowered, owned, owned_opt, same, trimmed};
use crate::text;

verus! {

/// How wide a fan-out is when consensus is switched on without a width.
pub const DEFAULT_SAMPLES: usize = 3;

/// The widest fan-out that a plan asks for.
pub const MAX_SAMPLES: usize = 5;

/// The stronger model that a task without a consensus goes to.
pub const ESCALATE_TO: &'static str = "opus";

/// The group that a passing candidate without a group of its own votes for.
pub const IMPLICIT_GROUP: &'static str = "__pass__";

/// One verifier verdict on one candidate implementation.
#[derive(Debug)]
pub struct Verdict {
    pub candidate: String,
    /// Only a passing candidate casts a vote.
    pub pass: bool,
    /// The answer that the candidate votes for, where the verifier assigned one.
    pub group: Option<String>,
}

/// A verdict, with the group that its vote goes to.
pub struct VerdictView {
    pub candidate: Seq<char>,
    pub pass: bool,
    pub group: Seq<char>,
}

impl View for Verdict {
    type V = VerdictView;

    open spec fn view(&self) -> VerdictView {
        VerdictView {
            candidate: self.candidate@,
            pass: self.pass,
            group: match self.group {
                Some(g) => g@,
                None => IMPLICIT_GROUP@,
            },
        }
    }
}

/// The verdicts that were cast, in no order.
pub open spec fn cast(verdicts: Seq<Verdict>) -> Multiset<VerdictView> {
    verdicts.map_values(|v: Verdict| v@).to_multiset()
}

/// A verdict that is a vote for `group`.
pub open spec fn is_vote_for(group: Seq<char>) -> spec_fn(VerdictView) -> bool {
    |v: VerdictView| v.pass && v.group == group
}

/// How many candidates voted for `group`.
pub open spec fn votes_for(all: Multiset<VerdictView>, group: Seq<char>) -> nat {
    all.filter(is_vote_for(group)).len()
}

/// How many candidates passed.
pub open spec fn passing(all: Multiset<VerdictView>) -> nat {
    all.filter(|v: VerdictView| v.pass).len()
}

/// No group has more votes than `group`, which has some.
pub open spec fn is_top(all: Multiset<VerdictView>, group: Seq<char>) -> bool {
    votes_for(all, group) > 0 && forall|other: Seq<char>|
        #[trigger] votes_for(all, other) <= votes_for(all, group)
}

/// The groups with the most votes.
pub open spec fn top_groups(all: Multiset<VerdictView>) -> Set<Seq<char>> {
    Set::new(|g: Seq<char>| is_top(all, g))
}

/// The first, in dictionary order, of the groups with the most votes.
pub open spec fn is_winning_group(all: Multiset<VerdictView>, group: Seq<char>) -> bool {
    is_top(all, group) && forall|other: Seq<char>|
        #[trigger] is_top(all, other) ==> other == group || text::precedes(group, other)
}

/// `candidate` voted for `group`.
pub open spec fn ran_for(
    all: Multiset<VerdictView>,
    group: Seq<char>,
    candidate: Seq<char>,
) -> bool {
    all.count(VerdictView { candidate, pass: true, group }) > 0
}

/// The first, in dictionary order, of the candidates that voted for `group`.
pub open spec fn is_winner(
    all: Multiset<VerdictView>,
    group: Seq<char>,
    candidate: Seq<char>,
) -> bool {
    ran_for(all, group, candidate) && forall|other: Seq<char>|
        #[trigger] ran_for(all, group, other) ==> other == candidate || text::precedes(candidate, other)
}

/// What the caller reads off the winning group's share of the vote.
#[derive(Debug)]
pub struct Agreement {
    /// The share lies below the threshold.
    pub below: bool,
    /// The share as a percentage.
    pub percent: String,
    /// The threshold as a percentage.
    pub threshold_percent: String,
}

/// The decision over all verdicts.
#[derive(Debug)]
pub struct Consensus {
    /// How many verdicts arrived.
    pub n: usize,
    pub passing: usize,
    /// The candidate to take, a representative of the winning group.
    pub winner: Option<String>,
    pub winning_group: Option<String>,
    pub winning_votes: usize,
    /// The winner is not to be taken as it is.
    pub escalate: bool,
    pub escalate_to: &'static str,
    pub reason: String,
    /// How many verdicts were expected and never arrived.
    pub missing: usize,
}

/// `{missing} of {expected} expected verdict(s) never arrived ...`
pub open spec fn missing_reason(missing: nat, expected: nat, n: nat) -> Seq<char> {
    text::dec(missing) + " of "@ + text::dec(expected) + " expected verdict(s) never arrived ("@ + text::dec(n)
        + " received) — a missing verdict cannot be counted as agreement → escalate"@
}

/// Why a vote in which nobody passed escalates.
pub open spec fn all_failed_reason(n: nat) -> Seq<char> {
    if n == 0 {
        "no verdicts supplied → escalate"@
    } else {
        "0/"@ + text::dec(n) + " candidates passed verification → escalate to "@ + ESCALATE_TO@
    }
}

/// The account of a vote that somebody won.
pub open spec fn vote_reason(
    tied: nat,
    votes: nat,
    n: nat,
    rate: Agreement,
    group: Seq<char>,
    winner: Seq<char>,
) -> Seq<char> {
    if tied > 1 {
        "tie: "@ + text::dec(tied) + " groups each with "@ + text::dec(votes) + "/"@ + text::dec(n)
            + " vote(s) → escalate to "@ + ESCALATE_TO@ + " for a tie-break"@
    } else if rate.below {
        "agreement "@ + text::dec(votes) + "/"@ + text::dec(n) + " = "@ + rate.percent@ + "% < "@
            + rate.threshold_percent@ + "% threshold → escalate to "@ + ESCALATE_TO@
    } else {
        "consensus: "@ + text::dec(votes) + "/"@ + text::dec(n) + " = "@ + rate.percent@ + "% agreed on '"@
            + group + "' (>= "@ + rate.threshold_percent@ + "% threshold) → take '"@ + winner
            + "'"@
    }
}

/// `c` is the decision over the verdicts `all`, of which `expected` were due.
pub open spec fn settles(
    all: Multiset<VerdictView>,
    rate: Agreement,
    expected: nat,
    c: Consensus,
) -> bool {
    let n = all.len();
    &&& c.n == n
    &&& c.passing == passing(all)
    &&& c.escalate_to@ == ESCALATE_TO@
    &&& c.missing == (if expected > n {
        expected - n
    } else {
        0
    })
    &&& if expected > n {
        &&& c.winner is None
        &&& c.winning_group is None
        &&& c.winning_votes == 0
        &&& c.escalate
        &&& c.reason@ == missing_reason((expected - n) as nat, expected, n)
    } else if passing(all) == 0 {
        &&& c.winner is None
        &&& c.winning_group is None
        &&& c.winning_votes == 0
        &&& c.escalate
        &&& c.reason@ == all_failed_reason(n)
    } else {
        &&& c.winning_group is Some
        &&& c.winner is Some
        &&& is_winning_group(all, c.winning_group->0@)
        &&& is_winner(all, c.winning_group->0@, c.winner->0@)
        &&& c.winning_votes == votes_for(all, c.winning_group->0@)
        &&& c.escalate == (top_groups(all).len() > 1 || rate.below)
        &&& c.reason@ == vote_reason(
            top_groups(all).len(),
            votes_for(all, c.winning_group->0@),
            n,
            rate,
            c.winning_group->0@,
            c.winner->0@,
        )
    }
}

// ---- counting ------------------------------------------------------------

proof fn lemma_cast_push(verdicts: Seq<Verdict>, i: int)
    requires
        0 <= i < verdicts.len(),
    ensures
        cast(verdicts.take(i + 1)) == cast(verdicts.take(i)).insert(verdicts[i]@),
        cast(verdicts.take(i)).len() == i,
{
    broadcast use vstd::seq_lib::group_to_multiset_ensures;

    let before = verdicts.take(i).map_values(|v: Verdict| v@);
    let after = verdicts.take(i + 1).map_values(|v: Verdict| v@);
    assert(after =~= before.push(verdicts[i]@));
    assert(before.len() == i);
}

proof fn lemma_cast_whole(verdicts: Seq<Verdict>)
    ensures
        verdicts.take(verdicts.len() as int) == verdicts,
        cast(verdicts).len() == verdicts.len(),
        cast(verdicts.take(0)) == Multiset::<VerdictView>::empty(),
{
    broadcast use vstd::seq_lib::group_to_multiset_ensures;

    assert(verdicts.take(verdicts.len() as int) =~= verdicts);
    let none = verdicts.take(0).map_values(|v: Verdict| v@);
    assert(none =~= Seq::<VerdictView>::empty());
    assert(cast(verdicts.take(0)).len() == 0);
    assert(verdicts.map_values(|v: Verdict| v@).len() == verdicts.len());
    assert(cast(verdicts.take(0)) =~= Multiset::<VerdictView>::empty());
}

proof fn lemma_filter_insert(
    all: Multiset<VerdictView>,
    v: VerdictView,
    keep: spec_fn(VerdictView) -> bool,
)
    ensures
        all.insert(v).filter(keep).len() == all.filter(keep).len() + (if keep(v) {
            1nat
        } else {
            0nat
        }),
{
    if keep(v) {
        assert(all.insert(v).filter(keep) =~= all.filter(keep).insert(v));
    } else {
        assert(all.insert(v).filter(keep) =~= all.filter(keep));
    }
}

/// The group that a verdict votes for.
fn group_of(v: &Verdict) -> (r: String)
    ensures
        r@ == v@.group,
{
    match &v.group {
        Some(g) => g.clone(),
        None => owned(IMPLICIT_GROUP),
    }
}

/// How many candidates voted for `group`.
fn count_votes(verdicts: &[Verdict], group: &str) -> (r: usize)
    ensures
        r == votes_for(cast(verdicts@), group@),
{
    let ghost f = is_vote_for(group@);
    let mut r: usize = 0;
    let mut i: usize = 0;
    proof {
        lemma_cast_whole(verdicts@);
        assert(Multiset::<VerdictView>::empty().filter(f) =~= Multiset::<VerdictView>::empty());
    }
    while i < verdicts.len()
        invariant
            f == is_vote_for(group@),
            r <= i <= verdicts@.len(),
            r == cast(verdicts@.take(i as int)).filter(f).len(),
        decreases verdicts@.len() - i,
    {
        proof {
            lemma_cast_push(verdicts@, i as int);
            lemma_filter_insert(cast(verdicts@.take(i as int)), verdicts@[i as int]@, f);
        }
        if verdicts[i].pass && same(&group_of(&verdicts[i]), group) {
            r += 1;
        }
        i += 1;
    }
    proof {
        lemma_cast_whole(verdicts@);
    }
    r
}

/// How many candidates passed.
fn count_passing(verdicts: &[Verdict]) -> (r: usize)
    ensures
        r == passing(cast(verdicts@)),
{
    let ghost f = |v: VerdictView| v.pass;
    let mut r: usize = 0;
    let mut i: usize = 0;
    proof {
        lemma_cast_whole(verdicts@);
        assert(Multiset::<VerdictView>::empty().filter(f) =~= Multiset::<VerdictView>::empty());
    }
    while i < verdicts.len()
        invariant
            f == (|v: VerdictView| v.pass),
            r <= i <= verdicts@.len(),
            r == cast(verdicts@.take(i as int)).filter(f).len(),
        decreases verdicts@.len() - i,
    {
        proof {
            lemma_cast_push(verdicts@, i as int);
            lemma_filter_insert(cast(verdicts@.take(i as int)), verdicts@[i as int]@, f);
        }
        if verdicts[i].pass {
            r += 1;
        }
        i += 1;
    }
    proof {
        lemma_cast_whole(verdicts@);
    }
    r
}

/// The list holds each group that got a vote, once.
spec fn lists_groups(groups: Seq<Seq<char>>, all: Multiset<VerdictView>) -> bool {
    groups.no_duplicates() && forall|g: Seq<char>|
        groups.contains(g) <==> #[trigger] votes_for(all, g) > 0
}

/// The groups that got a vote.
fn voted_groups(verdicts: &[Verdict]) -> (r: Vec<String>)
    ensures
        lists_groups(text::texts(r@), cast(verdicts@)),
{
    let mut out: Vec<String> = Vec::new();
    let mut i: usize = 0;
    proof {
        lemma_cast_whole(verdicts@);
        assert forall|g: Seq<char>| votes_for(cast(verdicts@.take(0)), g) == 0 by {
            assert(Multiset::<VerdictView>::empty().filter(is_vote_for(g)) =~= Multiset::<
                VerdictView,
            >::empty());
        }
    }
    while i < verdicts.len()
        invariant
            i <= verdicts@.len(),
            lists_groups(text::texts(out@), cast(verdicts@.take(i as int))),
        decreases verdicts@.len() - i,
    {
        let ghost all = cast(verdicts@.take(i as int));
        let ghost v = verdicts@[i as int]@;
        let ghost before = text::texts(out@);
        proof {
            lemma_cast_push(verdicts@, i as int);
            assert forall|g: Seq<char>| #[trigger]
                votes_for(all.insert(v), g) == votes_for(all, g) + (if v.pass && v.group == g {
                    1nat
                } else {
                    0nat
                }) by {
                lemma_filter_insert(all, v, is_vote_for(g));
            }
        }
        if verdicts[i].pass {
            let g = group_of(&verdicts[i]);
            if !lists(&out, g.as_str()) {
                out.push(g);
                assert(text::texts(out@) =~= before.push(v.group));
                proof {
                    lemma_contains_push(before, v.group);
                }
            }
        }
        i += 1;
    }
    proof {
        lemma_cast_whole(verdicts@);
    }
    out
}

proof fn lemma_somebody_passed(all: Multiset<VerdictView>)
    ensures
        passing(all) > 0 <==> exists|g: Seq<char>| #[trigger] votes_for(all, g) > 0,
{
    let f = |v: VerdictView| v.pass;
    if passing(all) > 0 {
        let v = all.filter(f).choose();
        assert(all.filter(f).count(v) > 0);
        assert(all.filter(is_vote_for(v.group)).count(v) > 0);
        assert(votes_for(all, v.group) > 0);
    }
    if exists|g: Seq<char>| #[trigger] votes_for(all, g) > 0 {
        let g = choose|g: Seq<char>| #[trigger] votes_for(all, g) > 0;
        let v = all.filter(is_vote_for(g)).choose();
        assert(all.filter(is_vote_for(g)).count(v) > 0);
        assert(all.filter(f).count(v) > 0);
    }
}

/// The outcome of comparing the groups.
struct Leader {
    /// Where the winning group stands in the list of groups.
    at: usize,
    votes: usize,
    /// How many groups have that many votes.
    tied: usize,
}

/// The winning group among those that got a vote.
fn leading(verdicts: &[Verdict], groups: &Vec<String>) -> (r: Leader)
    requires
        groups@.len() > 0,
        lists_groups(text::texts(groups@), cast(verdicts@)),
    ensures
        r.at < groups@.len(),
        is_winning_group(cast(verdicts@), groups@[r.at as int]@),
        r.votes == votes_for(cast(verdicts@), groups@[r.at as int]@),
        r.tied == top_groups(cast(verdicts@)).len(),
{
    let ghost all = cast(verdicts@);
    let ghost names = text::texts(groups@);
    let mut at: usize = 0;
    let mut votes: usize = count_votes(verdicts, groups[0].as_str());
    let mut tied: usize = 1;
    let ghost mut leaders: Seq<Seq<char>> = seq![names[0]];
    let mut j: usize = 1;
    proof {
        lemma_contains_push(Seq::empty(), names[0]);
        assert(leaders =~= Seq::empty().push(names[0]));
        assert(names.take(1) =~= leaders);
    }
    while j < groups.len()
        invariant
            all == cast(verdicts@),
            names == text::texts(groups@),
            lists_groups(names, all),
            at < j <= groups@.len(),
            1 <= tied <= j,
            leaders.len() == tied,
            leaders.no_duplicates(),
            votes == votes_for(all, names[at as int]),
            forall|g: Seq<char>| #[trigger]
                names.take(j as int).contains(g) ==> votes_for(all, g) <= votes,
            forall|g: Seq<char>| #[trigger]
                leaders.contains(g) <==> names.take(j as int).contains(g) && votes_for(all, g)
                    == votes,
            forall|g: Seq<char>| #[trigger]
                leaders.contains(g) ==> g == names[at as int] || text::precedes(names[at as int], g),
        decreases groups@.len() - j,
    {
        let here = count_votes(verdicts, groups[j].as_str());
        let ghost g = names[j as int];
        let ghost seen = names.take(j as int);
        let ghost before = leaders;
        proof {
            assert(names.take(j as int + 1) =~= seen.push(g));
            lemma_contains_push(seen, g);
            lemma_contains_push(before, g);
            lemma_contains_push(Seq::empty(), g);
            assert(!seen.contains(g)) by {
                if seen.contains(g) {
                    let k = choose|k: int| 0 <= k < seen.len() && seen[k] == g;
                    assert(names[k] == names[j as int]);
                }
            }
            assert(seq![g] =~= Seq::empty().push(g));
        }
        if here > votes {
            at = j;
            votes = here;
            tied = 1;
            proof {
                leaders = seq![g];
            }
        } else if here == votes {
            let ghost held = names[at as int];
            proof {
                leaders = before.push(g);
                assert(!before.contains(g));
                assert forall|x: int, y: int| 0 <= x < y < leaders.len() implies leaders[x]
                    != leaders[y] by {
                    if y == before.len() && leaders[x] == g {
                        assert(before[x] == g);
                    }
                }
                text::lemma_precedes_total(g, held);
            }
            tied += 1;
            if is_before(groups[j].as_str(), groups[at].as_str()) {
                proof {
                    assert forall|h: Seq<char>| #[trigger] leaders.contains(h) implies h == g
                        || text::precedes(g, h) by {
                        if before.contains(h) && h != held {
                            text::lemma_precedes_transitive(g, held, h);
                        }
                    }
                }
                at = j;
            }
        }
        j += 1;
    }
    proof {
        assert(names.take(j as int) =~= names);
        let best = names[at as int];
        assert(names.contains(best));
        assert forall|g: Seq<char>| #[trigger] votes_for(all, g) <= votes by {
            if votes_for(all, g) > 0 {
                assert(names.take(j as int).contains(g));
            }
        }
        assert(votes_for(all, best) > 0);
        assert(is_top(all, best));
        assert forall|g: Seq<char>| leaders.contains(g) <==> #[trigger] is_top(all, g) by {
            if is_top(all, g) {
                assert(votes_for(all, g) >= votes_for(all, best));
                assert(names.contains(g));
            }
        }
        assert(leaders.to_set() =~= top_groups(all));
        leaders.unique_seq_to_set();
    }
    Leader { at, votes, tied }
}

proof fn lemma_contains_push(list: Seq<Seq<char>>, x: Seq<char>)
    ensures
        forall|y: Seq<char>| #[trigger] list.push(x).contains(y) <==> list.contains(y) || y == x,
{
    assert forall|y: Seq<char>| #[trigger] list.push(x).contains(y) <==> list.contains(y) || y
        == x by {
        if list.contains(y) {
            let k = choose|k: int| 0 <= k < list.len() && list[k] == y;
            assert(list.push(x)[k] == y);
        }
        assert(list.push(x)[list.len() as int] == x);
    }
}

/// The first candidate, in dictionary order, that voted for `group`.
fn first_candidate(verdicts: &[Verdict], group: &str) -> (r: String)
    requires
        votes_for(cast(verdicts@), group@) > 0,
    ensures
        is_winner(cast(verdicts@), group@, r@),
{
    let mut best: Option<usize> = None;
    let mut i: usize = 0;
    proof {
        lemma_cast_whole(verdicts@);
    }
    while i < verdicts.len()
        invariant
            i <= verdicts@.len(),
            match best {
                None => forall|c: Seq<char>|
                    !#[trigger] ran_for(cast(verdicts@.take(i as int)), group@, c),
                Some(b) => b < i && is_winner(
                    cast(verdicts@.take(i as int)),
                    group@,
                    verdicts@[b as int].candidate@,
                ),
            },
        decreases verdicts@.len() - i,
    {
        let ghost all = cast(verdicts@.take(i as int));
        let ghost v = verdicts@[i as int]@;
        proof {
            lemma_cast_push(verdicts@, i as int);
            assert forall|c: Seq<char>| #[trigger]
                ran_for(all.insert(v), group@, c) <==> ran_for(all, group@, c) || (v.pass && v.group
                    == group@ && v.candidate == c) by {}
        }
        if verdicts[i].pass && same(&group_of(&verdicts[i]), group) {
            match best {
                None => {
                    best = Some(i);
                },
                Some(b) => {
                    proof {
                        text::lemma_precedes_total(v.candidate, verdicts@[b as int].candidate@);
                    }
                    if is_before(verdicts[i].candidate.as_str(), verdicts[b].candidate.as_str()) {
                        proof {
                            let held = verdicts@[b as int].candidate@;
                            assert forall|c: Seq<char>| #[trigger]
                                ran_for(all.insert(v), group@, c) implies c == v.candidate
                                || text::precedes(v.candidate, c) by {
                                if ran_for(all, group@, c) && c != held {
                                    text::lemma_precedes_transitive(v.candidate, held, c);
                                }
                            }
                        }
                        best = Some(i);
                    }
                },
            }
        }
        i += 1;
    }
    proof {
        lemma_cast_whole(verdicts@);
        let all = cast(verdicts@);
        let v = all.filter(is_vote_for(group@)).choose();
        assert(all.filter(is_vote_for(group@)).count(v) > 0);
        assert(v == VerdictView { candidate: v.candidate, pass: true, group: group@ });
        assert(ran_for(all, group@, v.candidate));
    }
    match best {
        Some(b) => verdicts[b].candidate.clone(),
        None => String::new(),
    }
}

/// The most votes that any group got: zero where nobody passed. This over the
/// number of verdicts is the share that an [`Agreement`] speaks of.
pub fn top_votes(verdicts: &[Verdict]) -> (r: usize)
    ensures
        passing(cast(verdicts@)) == 0 ==> r == 0,
        forall|g: Seq<char>| #[trigger]
            is_top(cast(verdicts@), g) ==> r == votes_for(cast(verdicts@), g),
        passing(cast(verdicts@)) > 0 ==> exists|g: Seq<char>| #[trigger]
            is_top(cast(verdicts@), g),
{
    let groups = voted_groups(verdicts);
    proof {
        lemma_groups_empty(text::texts(groups@), cast(verdicts@));
    }
    if groups.len() == 0 {
        return 0;
    }
    let lead = leading(verdicts, &groups);
    assert(is_top(cast(verdicts@), groups@[lead.at as int]@));
    lead.votes
}

proof fn lemma_groups_empty(groups: Seq<Seq<char>>, all: Multiset<VerdictView>)
    requires
        lists_groups(groups, all),
    ensures
        groups.len() == 0 <==> passing(all) == 0,
        groups.len() == 0 ==> forall|g: Seq<char>| !#[trigger] is_top(all, g),
{
    lemma_somebody_passed(all);
    if groups.len() > 0 {
        assert(groups.contains(groups[0]));
        assert(votes_for(all, groups[0]) > 0);
    } else {
        assert forall|g: Seq<char>| #[trigger] votes_for(all, g) == 0 by {
            assert(!groups.contains(g));
        }
    }
}

/// Turns the verdicts into a winner and an escalation decision.
///
/// `expected` verdicts were due. One that never arrived is not agreement, so a
/// vote with fewer escalates whatever the others say. Only passing candidates
/// vote; the group with the most votes wins, and among equals the first in
/// dictionary order is named, though a tie escalates. `rate` is the caller's
/// reading of [`top_votes`] over the number of verdicts.
pub fn tally(verdicts: &[Verdict], rate: &Agreement, expected: usize) -> (c: Consensus)
    ensures
        settles(cast(verdicts@), *rate, expected as nat, c),
{
    let n = verdicts.len();
    let passing = count_passing(verdicts);
    proof {
        lemma_cast_whole(verdicts@);
    }
    if expected > n {
        let missing = expected - n;
        let mut reason = dec_usize(missing);
        reason.push_str(" of ");
        reason.push_str(dec_usize(expected).as_str());
        reason.push_str(" expected verdict(s) never arrived (");
        reason.push_str(dec_usize(n).as_str());
        reason.push_str(
            " received) — a missing verdict cannot be counted as agreement → escalate",
        );
        return Consensus {
            n,
            passing,
            winner: None,
            winning_group: None,
            winning_votes: 0,
            escalate: true,
            escalate_to: ESCALATE_TO,
            reason,
            missing,
        };
    }
    let groups = voted_groups(verdicts);
    proof {
        lemma_groups_empty(text::texts(groups@), cast(verdicts@));
    }
    if groups.len() == 0 {
        let reason = if n == 0 {
            owned("no verdicts supplied → escalate")
        } else {
            let mut reason = owned("0/");
            reason.push_str(dec_usize(n).as_str());
            reason.push_str(" candidates passed verification → escalate to ");
            reason.push_str(ESCALATE_TO);
            reason
        };
        return Consensus {
            n,
            passing,
            winner: None,
            winning_group: None,
            winning_votes: 0,
            escalate: true,
            escalate_to: ESCALATE_TO,
            reason,
            missing: 0,
        };
    }
    let lead = leading(verdicts, &groups);
    let group = groups[lead.at].clone();
    let winner = first_candidate(verdicts, group.as_str());
    let tie = lead.tied > 1;
    let votes = dec_usize(lead.votes);
    let total = dec_usize(n);
    let reason = if tie {
        let mut reason = owned("tie: ");
        reason.push_str(dec_usize(lead.tied).as_str());
        reason.push_str(" groups each with ");
        reason.push_str(votes.as_str());
        reason.push_str("/");
        reason.push_str(total.as_str());
        reason.push_str(" vote(s) → escalate to ");
        reason.push_str(ESCALATE_TO);
        reason.push_str(" for a tie-break");
        reason
    } else if rate.below {
        let mut reason = owned("agreement ");
        reason.push_str(votes.as_str());
        reason.push_str("/");
        reason.push_str(total.as_str());
        reason.push_str(" = ");
        reason.push_str(rate.percent.as_str());
        reason.push_str("% < ");
        reason.push_str(rate.threshold_percent.as_str());
        reason.push_str("% threshold → escalate to ");
        reason.push_str(ESCALATE_TO);
        reason
    } else {
        let mut reason = owned("consensus: ");
        reason.push_str(votes.as_str());
        reason.push_str("/");
        reason.push_str(total.as_str());
        reason.push_str(" = ");
        reason.push_str(rate.percent.as_str());
        reason.push_str("% agreed on '");
        reason.push_str(group.as_str());
        reason.push_str("' (>= ");
        reason.push_str(rate.threshold_percent.as_str());
        reason.push_str("% threshold) → take '");
        reason.push_str(winner.as_str());
        reason.push_str("'");
        reason
    };
    Consensus {
        n,
        passing,
        winner: Some(winner),
        winning_group: Some(group),
        winning_votes: lead.votes,
        escalate: tie || rate.below,
        escalate_to: ESCALATE_TO,
        reason,
        missing: 0,
    }
}

// ---- the plan ------------------------------------------------------------

/// Whether to fan out, and how wide.
#[derive(Debug)]
pub struct Plan {
    pub enabled: bool,
    /// How many candidates to generate.
    pub samples: usize,
    /// The risk flag that was considered.
    pub risk: Option<String>,
}

/// The risk flags that force a fan-out.
pub open spec fn names_high_risk(risk: Option<Seq<char>>) -> bool {
    match risk {
        Some(r) => text::ascii_lower(text::trim(r)) == "high"@ || text::ascii_lower(text::trim(r)) == "critical"@,
        None => false,
    }
}

/// Whether a task's risk flag is `high` or `critical`, in any case and with any
/// white space round it.
pub fn risk_is_high(risk: Option<&str>) -> (r: bool)
    ensures
        r == names_high_risk(text::opt_str(risk)),
{
    match risk {
        Some(flag) => {
            let word = lowered(trimmed(flag).as_str());
            same(&word, "high") || same(&word, "critical")
        },
        None => false,
    }
}

/// `wanted`, brought up to two and down to the tighter of [`MAX_SAMPLES`] and
/// `cap`; the floor of two prevails over a lower cap.
pub open spec fn fan_out_width(wanted: int, cap: int) -> int {
    let ceiling = if cap < 2 {
        2
    } else if cap < MAX_SAMPLES {
        cap
    } else {
        MAX_SAMPLES as int
    };
    if wanted < 2 {
        2
    } else if wanted > ceiling {
        ceiling
    } else {
        wanted
    }
}

/// The fan-out for one task: on by the global switch or by a high risk, and one
/// sample where it is off. `session_cap` is how many workers a session may run
/// at a time.
pub fn plan(
    global_enabled: bool,
    configured_samples: usize,
    session_cap: usize,
    risk: Option<&str>,
) -> (p: Plan)
    ensures
        p.enabled == (global_enabled || names_high_risk(text::opt_str(risk))),
        p.samples == (if p.enabled {
            fan_out_width(configured_samples as int, session_cap as int)
        } else {
            1
        }),
        text::opt(p.risk) == text::opt_str(risk),
        global_enabled ==> p.enabled,
        risk is None && !global_enabled ==> !p.enabled,
        !p.enabled ==> p.samples == 1,
        p.enabled ==> 2 <= p.samples <= 5,
        p.enabled && 2 <= configured_samples <= session_cap && configured_samples <= 5 ==> p.samples
            == configured_samples,
{
    let enabled = global_enabled || risk_is_high(risk);
    let ceiling: usize = if session_cap < 2 {
        2
    } else if session_cap < MAX_SAMPLES {
        session_cap
    } else {
        MAX_SAMPLES
    };
    let samples: usize = if !enabled {
        1
    } else if configured_samples < 2 {
        2
    } else if configured_samples > ceiling {
        ceiling
    } else {
        configured_samples
    };
    Plan { enabled, samples, risk: owned_opt(risk) }
}

// ---- laws ----------------------------------------------------------------

/// The decision does not depend on the order in which the verdicts came: two
/// tallies of the same verdicts say the same.
pub proof fn tally_is_order_independent(
    one: Seq<Verdict>,
    other: Seq<Verdict>,
    rate: Agreement,
    expected: nat,
    c: Consensus,
    d: Consensus,
)
    requires
        cast(one) == cast(other),
        settles(cast(one), rate, expected, c),
        settles(cast(other), rate, expected, d),
    ensures
        c.n == d.n,
        c.passing == d.passing,
        text::opt(c.winner) == text::opt(d.winner),
        text::opt(c.winning_group) == text::opt(d.winning_group),
        c.winning_votes == d.winning_votes,
        c.escalate == d.escalate,
        c.reason@ == d.reason@,
        c.missing == d.missing,
{
    let all = cast(one);
    if expected <= all.len() && passing(all) > 0 {
        let g = c.winning_group->0@;
        let h = d.winning_group->0@;
        assert(is_top(all, g) && is_top(all, h));
        if g != h {
            text::lemma_precedes_antisymmetric(g, h);
        }
        let x = c.winner->0@;
        let y = d.winner->0@;
        assert(ran_for(all, g, x) && ran_for(all, g, y));
        if x != y {
            text::lemma_precedes_antisymmetric(x, y);
        }
    }
}

/// Neither the winning votes nor the passing candidates outnumber the verdicts.
pub proof fn tally_bounds_hold(
    all: Multiset<VerdictView>,
    rate: Agreement,
    expected: nat,
    c: Consensus,
)
    requires
        settles(all, rate, expected, c),
    ensures
        c.winning_votes <= c.passing <= c.n,
{
    let f = |v: VerdictView| v.pass;
    let passed = all.filter(f);
    assert(passed.subset_of(all));
    assert(all.sub(passed).len() == all.len() - passed.len());
    if c.winning_group is Some {
        let voted = all.filter(is_vote_for(c.winning_group->0@));
        assert(voted.subset_of(passed));
        assert(passed.sub(voted).len() == passed.len() - voted.len());
    }
}

/// A verdict that never arrived, a tie and a vote that nobody passed all
/// escalate, and without a full vote or a passing candidate there is no winner.
pub proof fn tally_fails_closed(
    all: Multiset<VerdictView>,
    rate: Agreement,
    expected: nat,
    c: Consensus,
)
    requires
        settles(all, rate, expected, c),
    ensures
        c.missing > 0 ==> c.escalate && c.winner is None && c.winning_group is None,
        c.passing == 0 ==> c.escalate && c.winner is None && c.winning_group is None,
        top_groups(all).len() > 1 ==> c.escalate,
        rate.below ==> c.escalate,
        !c.escalate ==> c.winner is Some,
{
}

/// A fan-out that is on always compares at least two samples and never more
/// than the ceiling.
pub proof fn fan_out_width_is_bounded(wanted: int, cap: int)
    ensures
        2 <= fan_out_width(wanted, cap) <= MAX_SAMPLES,
        cap >= 2 ==> fan_out_width(wanted, cap) <= cap,
{
}

/// The votes for a group are the passing verdicts that name it, one that names
/// none going to the common group; and those that pass are all that do.
pub proof fn votes_are_passing_verdicts(verdicts: Seq<Verdict>, group: Seq<char>)
    ensures
        votes_for(cast(verdicts), group) == verdicts.filter(
            |v: Verdict|
                v.pass && (v.group is Some ==> v.group->0@ == group) && (v.group is None ==> group
                    == "__pass__"@),
        ).len(),
        passing(cast(verdicts)) == verdicts.filter(|v: Verdict| v.pass).len(),
    decreases verdicts.len(),
{
    reveal(Seq::filter);
    let whole = verdicts.take(verdicts.len() as int);
    lemma_cast_whole(verdicts);
    if verdicts.len() == 0 {
        assert(verdicts.take(0) =~= verdicts);
        assert(cast(verdicts).filter(is_vote_for(group)) =~= Multiset::<VerdictView>::empty());
        assert(cast(verdicts).filter(|v: VerdictView| v.pass) =~= Multiset::<VerdictView>::empty());
    } else {
        let n = verdicts.len() - 1;
        let before = verdicts.drop_last();
        votes_are_passing_verdicts(before, group);
        lemma_cast_push(verdicts, n);
        assert(verdicts.take(n) =~= before);
        assert(verdicts.take(n + 1) =~= verdicts);
        lemma_filter_insert(cast(before), verdicts[n]@, is_vote_for(group));
        lemma_filter_insert(cast(before), verdicts[n]@, |v: VerdictView| v.pass);
    }
}

/// The winner is one of the candidates: it was put forward, it passed, and it
/// voted for the group that won.
pub proof fn the_winner_was_put_forward(
    verdicts: Seq<Verdict>,
    rate: Agreement,
    expected: nat,
    c: Consensus,
)
    requires
        settles(cast(verdicts), rate, expected, c),
        c.winner is Some,
    ensures
        c.winning_group is Some,
        exists|i: int|
            0 <= i < verdicts.len() && (#[trigger] verdicts[i]).pass && verdicts[i].candidate@
                == c.winner->0@ && (verdicts[i].group is Some ==> verdicts[i].group->0@
                == c.winning_group->0@) && (verdicts[i].group is None ==> c.winning_group->0@
                == "__pass__"@),
{
    let views = verdicts.map_values(|v: Verdict| v@);
    let won = VerdictView {
        candidate: c.winner->0@,
        pass: true,
        group: c.winning_group->0@,
    };
    broadcast use vstd::seq_lib::group_to_multiset_ensures;

    assert(cast(verdicts).count(won) > 0);
    assert(views.contains(won));
    let i = choose|i: int| 0 <= i < views.len() && views[i] == won;
    assert(verdicts[i]@ == won);
}

/// Of the candidates of the group that won, the winner is the first in
/// dictionary order; and of the groups with as many votes, so is the group.
pub proof fn ties_go_by_name(
    verdicts: Seq<Verdict>,
    rate: Agreement,
    expected: nat,
    c: Consensus,
    i: int,
    other: Seq<char>,
)
    requires
        settles(cast(verdicts), rate, expected, c),
        c.winner is Some,
        0 <= i < verdicts.len(),
    ensures
        verdicts[i].pass && verdicts[i].group is Some && verdicts[i].group->0@
            == c.winning_group->0@ && verdicts[i].candidate@ != c.winner->0@ ==> text::precedes(
            c.winner->0@,
            verdicts[i].candidate@,
        ),
        votes_for(cast(verdicts), other) == c.winning_votes && other != c.winning_group->0@
            ==> text::precedes(c.winning_group->0@, other),
{
    let all = cast(verdicts);
    let views = verdicts.map_values(|v: Verdict| v@);
    broadcast use vstd::seq_lib::group_to_multiset_ensures;

    assert(views[i] == verdicts[i]@);
    assert(views.contains(verdicts[i]@));
    assert(all.count(verdicts[i]@) > 0);
    if verdicts[i].pass && verdicts[i].group is Some && verdicts[i].group->0@
        == c.winning_group->0@ {
        assert(verdicts[i]@ == (VerdictView {
            candidate: verdicts[i].candidate@,
            pass: true,
            group: c.winning_group->0@,
        }));
        assert(ran_for(all, c.winning_group->0@, verdicts[i].candidate@));
    }
    if votes_for(all, other) == c.winning_votes {
        assert(is_top(all, other));
    }
}

/// The group that won has as many votes as are said, and no group has more.
/// Another group with as many sends the vote to a stronger judge. Where none has,
/// nothing is missing, something passed and the share is not too low, the vote
/// stands.
pub proof fn the_most_votes_win(
    verdicts: Seq<Verdict>,
    rate: Agreement,
    expected: nat,
    c: Consensus,
    other: Seq<char>,
)
    requires
        settles(cast(verdicts), rate, expected, c),
    ensures
        c.n == verdicts.len(),
        c.missing == (if expected > verdicts.len() {
            expected - verdicts.len()
        } else {
            0
        }),
        c.winner is Some <==> expected <= verdicts.len() && exists|i: int|
            0 <= i < verdicts.len() && (#[trigger] verdicts[i]).pass,
        c.winner is None ==> c.escalate && c.winning_votes == 0,
        c.winner is Some ==> c.winning_votes > 0 && votes_for(cast(verdicts), c.winning_group->0@)
            == c.winning_votes && votes_for(cast(verdicts), other) <= c.winning_votes,
        c.winner is Some && other != c.winning_group->0@ && votes_for(cast(verdicts), other)
            == c.winning_votes ==> c.escalate,
        c.winner is Some && rate.below ==> c.escalate,
        c.winner is Some && !rate.below && (forall|g: Seq<char>|
            g != c.winning_group->0@ ==> #[trigger] votes_for(cast(verdicts), g) < c.winning_votes)
            ==> !c.escalate,
{
    let all = cast(verdicts);
    lemma_cast_whole(verdicts);
    let pass = |v: Verdict| v.pass;
    votes_are_passing_verdicts(verdicts, other);
    lemma_some_kept(verdicts, pass);
    lemma_tops_are_few(verdicts);
    if c.winner is Some {
        let g = c.winning_group->0@;
        let tops = top_groups(all);
        assert(is_top(all, g));
        assert(tops.contains(g));
        if other != g && votes_for(all, other) == c.winning_votes {
            assert(is_top(all, other));
            assert(tops.contains(other));
            let pair = Set::<Seq<char>>::empty().insert(g).insert(other);
            assert(pair.subset_of(tops));
            assert(pair.len() == 2);
            vstd::set_lib::lemma_len_subset(pair, tops);
        }
        if forall|h: Seq<char>| h != g ==> #[trigger] votes_for(all, h) < c.winning_votes {
            assert forall|h: Seq<char>| tops.contains(h) <==> h == g by {
                if is_top(all, h) && h != g {
                    assert(votes_for(all, g) <= votes_for(all, h));
                }
            }
            assert(tops =~= Set::<Seq<char>>::empty().insert(g));
        }
    }
}

proof fn lemma_some_kept(verdicts: Seq<Verdict>, keep: spec_fn(Verdict) -> bool)
    ensures
        verdicts.filter(keep).len() > 0 <==> exists|i: int|
            0 <= i < verdicts.len() && keep(#[trigger] verdicts[i]),
    decreases verdicts.len(),
{
    reveal(Seq::filter);
    if verdicts.len() > 0 {
        let before = verdicts.drop_last();
        lemma_some_kept(before, keep);
        assert(verdicts[verdicts.len() - 1] == verdicts.last());
        if keep(verdicts.last()) {
            assert(keep(verdicts[verdicts.len() - 1]));
        } else {
            if exists|i: int| 0 <= i < verdicts.len() && keep(#[trigger] verdicts[i]) {
                let i = choose|i: int| 0 <= i < verdicts.len() && keep(#[trigger] verdicts[i]);
                assert(before[i] == verdicts[i]);
            }
            if exists|i: int| 0 <= i < before.len() && keep(#[trigger] before[i]) {
                let i = choose|i: int| 0 <= i < before.len() && keep(#[trigger] before[i]);
                assert(verdicts[i] == before[i]);
            }
        }
    }
}

proof fn lemma_tops_are_few(verdicts: Seq<Verdict>)
    ensures
        top_groups(cast(verdicts)).finite(),
{
    let all = cast(verdicts);
    let groups = verdicts.map_values(|v: Verdict| v@.group);
    vstd::seq_lib::seq_to_set_is_finite(groups);
    assert(top_groups(all).subset_of(groups.to_set())) by {
        assert forall|g: Seq<char>| top_groups(all).contains(g) implies groups.to_set().contains(
            g,
        ) by {
            broadcast use vstd::seq_lib::group_to_multiset_ensures;

            let votes = all.filter(is_vote_for(g));
            let v = votes.choose();
            assert(votes.count(v) > 0);
            assert(all.count(v) > 0 && v.group == g);
            let views = verdicts.map_values(|v: Verdict| v@);
            assert(views.contains(v));
            let i = choose|i: int| 0 <= i < views.len() && views[i] == v;
            assert(verdicts[i]@ == v);
            assert(groups[i] == g);
            assert(groups.contains(g));
        }
    }
    vstd::set_lib::lemma_len_subset(top_groups(all), groups.to_set());
}

/// A risk is high where it is spelt `high` or `critical`, in whatever case and
/// with whatever space around it, and nowhere else.
pub proof fn two_words_make_a_risk_high(r: Seq<char>)
    ensures
        !names_high_risk(None),
        text::ascii_lower(text::trim(r)) == "high"@ ==> names_high_risk(Some(r)),
        text::ascii_lower(text::trim(r)) == "critical"@ ==> names_high_risk(Some(r)),
        names_high_risk(Some(r)) ==> text::ascii_lower(text::trim(r)) == "high"@
            || text::ascii_lower(text::trim(r)) == "critical"@,
{
}

/// As many candidates are run as were asked for, where that is at least two and
/// within what the session and the fan-out allow, and the nearest such number
/// otherwise; more is never run because less was asked for.
pub proof fn as_many_are_run_as_asked_for(wanted: int, more: int, cap: int)
    ensures
        2 <= wanted <= cap && wanted <= 5 ==> fan_out_width(wanted, cap) == wanted,
        wanted <= 2 ==> fan_out_width(wanted, cap) == 2,
        wanted >= cap && 2 <= cap <= 5 ==> fan_out_width(wanted, cap) == cap,
        wanted >= 5 && cap >= 5 ==> fan_out_width(wanted, cap) == 5,
        wanted <= more ==> fan_out_width(wanted, cap) <= fan_out_width(more, cap),
{
}

/// A vote that failed says how many there were; one that was never held says so;
/// and what is missing is told of what was expected.
pub proof fn a_failed_vote_says_its_numbers(missing: nat, expected: nat, n: nat)
    ensures
        all_failed_reason(0) == "no verdicts supplied → escalate"@,
        n > 0 ==> text::holds_text(all_failed_reason(n), text::dec(n)),
        text::holds_text(missing_reason(missing, expected, n), text::dec(missing)),
        text::holds_text(missing_reason(missing, expected, n), text::dec(expected)),
        text::holds_text(missing_reason(missing, expected, n), text::dec(n)),
{
    let a = "0/"@;
    let end = " candidates passed verification → escalate to "@ + ESCALATE_TO@;
    let d = text::dec(n);
    if n > 0 {
        text::a_text_holds_its_parts(a, d, end, d);
        assert(all_failed_reason(n) =~= a + d + end);
    }
    let x = text::dec(missing);
    let y = text::dec(expected);
    let b = " of "@;
    let c = " expected verdict(s) never arrived ("@;
    let e = " received) — a missing verdict cannot be counted as agreement → escalate"@;
    let whole = missing_reason(missing, expected, n);
    text::a_text_holds_its_parts(Seq::empty(), x, b + y + c + d + e, x);
    assert(whole =~= Seq::empty() + x + (b + y + c + d + e));
    text::a_text_holds_its_parts(x + b, y, c + d + e, y);
    assert(whole =~= (x + b) + y + (c + d + e));
    text::a_text_holds_its_parts(x + b + y + c, d, e, d);
}

/// The reason of a vote tells a tie by how many groups are tied, and otherwise the
/// share that was reached and the threshold for it; a vote that stands is told
/// with its group and its winner.
pub proof fn a_vote_says_why_it_stands_or_falls(
    tied: nat,
    votes: nat,
    n: nat,
    rate: Agreement,
    group: Seq<char>,
    winner: Seq<char>,
)
    ensures
        ({
            let reason = vote_reason(tied, votes, n, rate, group, winner);
            &&& tied >= 2 <==> reason.len() > 0 && reason[0] == 't'
            &&& tied < 2 && rate.below <==> reason.len() > 0 && reason[0] == 'a'
            &&& tied < 2 && !rate.below <==> reason.len() > 0 && reason[0] == 'c'
            &&& tied >= 2 ==> text::holds_text(reason, text::dec(tied))
            &&& tied < 2 ==> text::holds_text(reason, rate.percent@) && text::holds_text(
                reason,
                rate.threshold_percent@,
            )
            &&& tied < 2 && !rate.below ==> text::holds_text(reason, group) && text::holds_text(
                reason,
                winner,
            )
        }),
{
    reveal_strlit("tie: ");
    reveal_strlit("agreement ");
    reveal_strlit("consensus: ");
    let reason = vote_reason(tied, votes, n, rate, group, winner);
    let v = text::dec(votes);
    let d = text::dec(n);
    let p = rate.percent@;
    let q = rate.threshold_percent@;
    if tied > 1 {
        let k = text::dec(tied);
        let end = " groups each with "@ + v + "/"@ + d + " vote(s) → escalate to "@ + ESCALATE_TO@
            + " for a tie-break"@;
        text::a_text_holds_its_parts("tie: "@, k, end, k);
        assert(reason =~= "tie: "@ + k + end);
        assert(reason[0] == "tie: "@[0]);
    } else if rate.below {
        let a = "agreement "@ + v + "/"@ + d + " = "@;
        let end = "% threshold → escalate to "@ + ESCALATE_TO@;
        text::a_text_holds_its_parts(a, p, "% < "@ + q + end, p);
        assert(reason =~= a + p + ("% < "@ + q + end));
        text::a_text_holds_its_parts(a + p + "% < "@, q, end, q);
        assert(reason =~= (a + p + "% < "@) + q + end);
        assert(reason[0] == "agreement "@[0]);
    } else {
        let a = "consensus: "@ + v + "/"@ + d + " = "@;
        let b = "% agreed on '"@;
        let c = "' (>= "@;
        let e = "% threshold) → take '"@;
        text::a_text_holds_its_parts(a, p, b + group + c + q + e + winner + "'"@, p);
        assert(reason =~= a + p + (b + group + c + q + e + winner + "'"@));
        text::a_text_holds_its_parts(a + p + b, group, c + q + e + winner + "'"@, group);
        assert(reason =~= (a + p + b) + group + (c + q + e + winner + "'"@));
        text::a_text_holds_its_parts(a + p + b + group + c, q, e + winner + "'"@, q);
        assert(reason =~= (a + p + b + group + c) + q + (e + winner + "'"@));
        text::a_text_holds_its_parts(a + p + b + group + c + q + e, winner, "'"@, winner);
        assert(reason[0] == "consensus: "@[0]);
    }
}

} // verus!
