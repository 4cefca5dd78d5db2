//! The adversarial refutation panel: several independent skeptics try to refute
//! one completed change, and their ballots are adjudicated.
//!
//! The panel fails closed. It passes a change only where enough skeptics voted,
//! too few refuted, every ballot that was due arrived, and no dissent is left
//! for a human to look at. Whether the refuters reach the block ratio is a
//! question about fractions, which the caller answers in a [`RefuteShare`].

use vstd::multiset::Multiset;
use vstd::prelude::*;

use crate::text;
use crate::text::{blank, dec_usize, holds_part, owned, starts, to_chars};

verus! {

/// How many skeptics sit on a panel that was engaged without a width.
pub const DEFAULT_PANEL: usize = 3;

/// The widest panel that a plan asks for.
pub const MAX_PANEL: usize = 5;

/// How many skeptics must vote before a change can pass.
pub const DEFAULT_MIN_VOTERS: usize = 2;

/// One skeptic's ballot.
#[derive(Debug, Clone, Copy, PartialEq, Eq, Structural)]
pub enum Ballot {
    /// A concrete defect was found.
    Refute,
    /// The skeptic tried to refute and could not.
    Pass,
    /// No judgment was reached; this is a vote neither way.
    Abstain,
}

/// One skeptic's ballot with its grounds.
#[derive(Debug)]
pub struct Vote {
    pub skeptic: String,
    pub ballot: Ballot,
    pub reason: Option<String>,
}

pub struct VoteView {
    pub skeptic: Seq<char>,
    pub ballot: Ballot,
    pub reason: Option<Seq<char>>,
}

impl View for Vote {
    type V = VoteView;

    open spec fn view(&self) -> VoteView {
        VoteView {
            skeptic: self.skeptic@,
            ballot: self.ballot,
            reason: text::opt(self.reason),
        }
    }
}

/// How a panel is adjudicated, apart from the block ratio.
#[derive(Debug, Clone, Copy)]
pub struct Policy {
    /// With fewer votes than this the panel blocks.
    pub min_voters: usize,
    /// A refutation that does not block still goes to a human.
    pub escalate_on_dissent: bool,
}

impl Default for Policy {
    fn default() -> (p: Policy)
        ensures
            p.min_voters == DEFAULT_MIN_VOTERS,
            p.escalate_on_dissent,
    {
        Policy { min_voters: DEFAULT_MIN_VOTERS, escalate_on_dissent: true }
    }
}

/// What the caller reads off the refuters' share of the votes.
#[derive(Debug)]
pub struct RefuteShare {
    /// The share reaches the block ratio.
    pub reaches: bool,
    /// The share as a percentage.
    pub percent: String,
    /// The block ratio as a percentage.
    pub block_percent: String,
}

/// The adjudication of all ballots.
#[derive(Debug)]
pub struct Panel {
    /// How many ballots arrived.
    pub n: usize,
    pub refutes: usize,
    pub passes: usize,
    pub abstains: usize,
    /// How many ballots are votes.
    pub effective: usize,
    /// The change does not go through.
    pub block: bool,
    /// A human or a stronger judge decides.
    pub escalate: bool,
    /// `block`, `escalate` or `pass`.
    pub outcome: &'static str,
    pub min_voters: usize,
    pub reason: String,
    /// The objections of the refuters, in the order of their ballots.
    pub refutations: Vec<String>,
    /// How many ballots were expected and never arrived.
    pub missing: usize,
}

/// The ballots that were cast, in no order.
pub open spec fn ballots(votes: Seq<Vote>) -> Multiset<Ballot> {
    votes.map_values(|v: Vote| v.ballot).to_multiset()
}

/// The votes that were cast, in no order.
pub open spec fn cast(votes: Seq<Vote>) -> Multiset<VoteView> {
    votes.map_values(|v: Vote| v@).to_multiset()
}

/// What a refuter objects: the name, and the grounds where there are any.
pub open spec fn objection(v: VoteView) -> Seq<char> {
    match v.reason {
        Some(r) => if text::trim(r).len() > 0 {
            v.skeptic + ": "@ + r
        } else {
            v.skeptic
        },
        None => v.skeptic,
    }
}

/// The objections, in the order of the ballots.
pub open spec fn objections(votes: Seq<Vote>) -> Seq<Seq<char>>
    decreases votes.len(),
{
    if votes.len() == 0 {
        Seq::empty()
    } else if votes.last().ballot == Ballot::Refute {
        objections(votes.drop_last()).push(objection(votes.last()@))
    } else {
        objections(votes.drop_last())
    }
}

/// Too few skeptics voted.
pub open spec fn thin_reason(effective: nat, min_voters: nat) -> Seq<char> {
    "only "@ + text::dec(effective) + " effective skeptic(s) (< min "@ + text::dec(min_voters)
        + ") — cannot adversarially verify a high-stakes completion → fail-closed block"@
}

/// The refuters reach the block ratio.
pub open spec fn refuted_reason(refutes: nat, effective: nat, share: RefuteShare) -> Seq<char> {
    text::dec(refutes) + "/"@ + text::dec(effective) + " skeptics refuted ("@ + share.percent@
        + "% >= "@ + share.block_percent@ + "% block ratio) → block"@
}

/// A ballot never arrived.
pub open spec fn missing_reason(missing: nat, expected: nat, n: nat) -> Seq<char> {
    text::dec(missing) + " of "@ + text::dec(expected) + " expected skeptic(s) never voted ("@
        + text::dec(n)
        + " ballot(s) received) — a missing vote cannot be counted as a non-objection → escalate"@
}

/// A minority refuted.
pub open spec fn dissent_reason(refutes: nat, effective: nat, share: RefuteShare) -> Seq<char> {
    text::dec(refutes) + "/"@ + text::dec(effective) + " skeptics refuted (below the "@
        + share.block_percent@
        + "% block ratio) — minority dissent on a high-stakes gate → escalate to a human / stronger judge"@
}

/// Nobody stands in the way.
pub open spec fn pass_reason(passes: nat, effective: nat, refutes: nat) -> Seq<char> {
    text::dec(passes) + "/"@ + text::dec(effective) + " skeptics could not refute ("@ + text::dec(
        refutes,
    ) + " refute(s)) → pass"@
}

/// What the panel rules, and why. The rules apply in this order: too few votes
/// block, refuters that reach the ratio block, a missing ballot escalates, a
/// dissent escalates where the policy says so, and the rest passes.
pub open spec fn ruling(
    all: Multiset<Ballot>,
    policy: Policy,
    share: RefuteShare,
    expected: nat,
) -> (Seq<char>, Seq<char>) {
    let n = all.len();
    let refutes = all.count(Ballot::Refute);
    let passes = all.count(Ballot::Pass);
    let effective = refutes + passes;
    if effective < policy.min_voters {
        ("block"@, thin_reason(effective, policy.min_voters as nat))
    } else if share.reaches {
        ("block"@, refuted_reason(refutes, effective, share))
    } else if expected > n {
        ("escalate"@, missing_reason((expected - n) as nat, expected, n))
    } else if refutes > 0 && policy.escalate_on_dissent {
        ("escalate"@, dissent_reason(refutes, effective, share))
    } else {
        ("pass"@, pass_reason(passes, effective, refutes))
    }
}

/// `p` is the adjudication of `votes`, of which `expected` were due.
pub open spec fn adjudicated(
    votes: Seq<Vote>,
    policy: Policy,
    share: RefuteShare,
    expected: nat,
    p: Panel,
) -> bool {
    let all = ballots(votes);
    &&& p.n == votes.len()
    &&& p.refutes == all.count(Ballot::Refute)
    &&& p.passes == all.count(Ballot::Pass)
    &&& p.abstains == all.count(Ballot::Abstain)
    &&& p.effective == p.refutes + p.passes
    &&& p.min_voters == policy.min_voters
    &&& p.missing == (if expected > votes.len() {
        expected - votes.len()
    } else {
        0
    })
    &&& text::texts(p.refutations@) == objections(votes)
    &&& p.outcome@ == ruling(all, policy, share, expected).0
    &&& p.reason@ == ruling(all, policy, share, expected).1
    &&& p.block == (p.outcome@ == "block"@)
    &&& p.escalate == (p.outcome@ == "escalate"@)
}

proof fn lemma_ballots_push(votes: Seq<Vote>, i: int)
    requires
        0 <= i < votes.len(),
    ensures
        ballots(votes.take(i + 1)) == ballots(votes.take(i)).insert(votes[i].ballot),
        ballots(votes.take(i)).len() == i,
{
    broadcast use vstd::seq_lib::group_to_multiset_ensures;

    let before = votes.take(i).map_values(|v: Vote| v.ballot);
    let after = votes.take(i + 1).map_values(|v: Vote| v.ballot);
    assert(after =~= before.push(votes[i].ballot));
    assert(before.len() == i);
}

proof fn lemma_ballots_ends(votes: Seq<Vote>)
    ensures
        votes.take(votes.len() as int) == votes,
        ballots(votes).len() == votes.len(),
        ballots(votes.take(0)) == Multiset::<Ballot>::empty(),
{
    broadcast use vstd::seq_lib::group_to_multiset_ensures;

    assert(votes.take(votes.len() as int) =~= votes);
    assert(votes.map_values(|v: Vote| v.ballot).len() == votes.len());
    assert(votes.take(0).map_values(|v: Vote| v.ballot) =~= Seq::<Ballot>::empty());
    assert(ballots(votes.take(0)) =~= Multiset::<Ballot>::empty());
}

/// How many ballots are `wanted`.
fn count(votes: &[Vote], wanted: Ballot) -> (r: usize)
    ensures
        r == ballots(votes@).count(wanted),
        r <= votes@.len(),
{
    let mut r: usize = 0;
    let mut i: usize = 0;
    proof {
        lemma_ballots_ends(votes@);
    }
    while i < votes.len()
        invariant
            r <= i <= votes@.len(),
            r == ballots(votes@.take(i as int)).count(wanted),
        decreases votes@.len() - i,
    {
        proof {
            lemma_ballots_push(votes@, i as int);
        }
        if votes[i].ballot == wanted {
            r += 1;
        }
        i += 1;
    }
    proof {
        lemma_ballots_ends(votes@);
    }
    r
}

fn objection_text(v: &Vote) -> (r: String)
    ensures
        r@ == objection(v@),
{
    let mut out = v.skeptic.clone();
    match &v.reason {
        Some(grounds) => {
            if !blank(grounds.as_str()) {
                out.push_str(": ");
                out.push_str(grounds.as_str());
            }
        },
        None => {},
    }
    out
}

fn objection_list(votes: &[Vote]) -> (r: Vec<String>)
    ensures
        text::texts(r@) == objections(votes@),
{
    let mut out: Vec<String> = Vec::new();
    let mut i: usize = 0;
    assert(text::texts(out@) =~= objections(votes@.take(0)));
    while i < votes.len()
        invariant
            i <= votes@.len(),
            text::texts(out@) == objections(votes@.take(i as int)),
        decreases votes@.len() - i,
    {
        assert(votes@.take(i as int + 1).drop_last() =~= votes@.take(i as int));
        if votes[i].ballot == Ballot::Refute {
            let ghost before = text::texts(out@);
            out.push(objection_text(&votes[i]));
            assert(text::texts(out@) =~= before.push(objection(votes@[i as int]@)));
        }
        i += 1;
    }
    assert(votes@.take(i as int) =~= votes@);
    out
}

/// Counts the ballots that decide: how many skeptics refuted, and how many
/// voted. The first over the second is the share that a [`RefuteShare`] speaks
/// of.
pub fn refute_count(votes: &[Vote]) -> (r: (usize, usize))
    ensures
        r.0 == ballots(votes@).count(Ballot::Refute),
        r.1 == ballots(votes@).count(Ballot::Refute) + ballots(votes@).count(Ballot::Pass),
{
    let n = votes.len();
    let refutes = count(votes, Ballot::Refute);
    let passes = count(votes, Ballot::Pass);
    proof {
        lemma_counts_conserved(votes@);
        assert(refutes + passes <= n);
    }
    (refutes, refutes + passes)
}

proof fn lemma_counts_conserved(votes: Seq<Vote>)
    ensures
        ballots(votes).count(Ballot::Refute) + ballots(votes).count(Ballot::Pass) + ballots(
            votes,
        ).count(Ballot::Abstain) == votes.len(),
    decreases votes.len(),
{
    lemma_ballots_ends(votes);
    if votes.len() > 0 {
        let k = votes.len() - 1;
        lemma_ballots_push(votes, k);
        lemma_counts_conserved(votes.take(k));
    }
}

/// Adjudicates the ballots on one change. `expected` skeptics were asked;
/// `share` is the caller's reading of [`refute_count`].
pub fn adjudicate(votes: &[Vote], policy: &Policy, share: &RefuteShare, expected: usize) -> (p:
    Panel)
    ensures
        adjudicated(votes@, *policy, *share, expected as nat, p),
{
    let n = votes.len();
    let missing: usize = if expected > n {
        expected - n
    } else {
        0
    };
    let refutes = count(votes, Ballot::Refute);
    let passes = count(votes, Ballot::Pass);
    let abstains = count(votes, Ballot::Abstain);
    proof {
        lemma_counts_conserved(votes@);
        lemma_ballots_ends(votes@);
        reveal_strlit("block");
        reveal_strlit("escalate");
        reveal_strlit("pass");
        assert("block"@.len() == 5);
        assert("escalate"@.len() == 8);
        assert("pass"@.len() == 4);
    }
    let effective = refutes + passes;
    let refutations = objection_list(votes);
    let mut block = false;
    let mut escalate = false;
    let outcome: &'static str;
    let mut reason: String;
    if effective < policy.min_voters {
        block = true;
        outcome = "block";
        reason = owned("only ");
        reason.push_str(dec_usize(effective).as_str());
        reason.push_str(" effective skeptic(s) (< min ");
        reason.push_str(dec_usize(policy.min_voters).as_str());
        reason.push_str(
            ") — cannot adversarially verify a high-stakes completion → fail-closed block",
        );
    } else if share.reaches {
        block = true;
        outcome = "block";
        reason = dec_usize(refutes);
        reason.push_str("/");
        reason.push_str(dec_usize(effective).as_str());
        reason.push_str(" skeptics refuted (");
        reason.push_str(share.percent.as_str());
        reason.push_str("% >= ");
        reason.push_str(share.block_percent.as_str());
        reason.push_str("% block ratio) → block");
    } else if missing > 0 {
        escalate = true;
        outcome = "escalate";
        reason = dec_usize(missing);
        reason.push_str(" of ");
        reason.push_str(dec_usize(expected).as_str());
        reason.push_str(" expected skeptic(s) never voted (");
        reason.push_str(dec_usize(n).as_str());
        reason.push_str(
            " ballot(s) received) — a missing vote cannot be counted as a non-objection → escalate",
        );
    } else if refutes > 0 && policy.escalate_on_dissent {
        escalate = true;
        outcome = "escalate";
        reason = dec_usize(refutes);
        reason.push_str("/");
        reason.push_str(dec_usize(effective).as_str());
        reason.push_str(" skeptics refuted (below the ");
        reason.push_str(share.block_percent.as_str());
        reason.push_str(
            "% block ratio) — minority dissent on a high-stakes gate → escalate to a human / stronger judge",
        );
    } else {
        outcome = "pass";
        reason = dec_usize(passes);
        reason.push_str("/");
        reason.push_str(dec_usize(effective).as_str());
        reason.push_str(" skeptics could not refute (");
        reason.push_str(dec_usize(refutes).as_str());
        reason.push_str(" refute(s)) → pass");
    }
    Panel {
        n,
        refutes,
        passes,
        abstains,
        effective,
        block,
        escalate,
        outcome,
        min_voters: policy.min_voters,
        reason,
        refutations,
        missing,
    }
}

// ---- engaging a panel ----------------------------------------------------

/// A path with forward slashes only.
pub open spec fn slashed(path: Seq<char>) -> Seq<char> {
    path.map_values(
        |c: char|
            if c == '\\' {
                '/'
            } else {
                c
            },
    )
}

/// The directory of the crate `gate`.
pub open spec fn crate_dir(gate: Seq<char>) -> Seq<char> {
    "crates/"@ + gate + "/"@
}

/// The directory `dir` begins at position `i` of `path`: at its start, or behind
/// a slash.
pub open spec fn enters(path: Seq<char>, dir: Seq<char>, i: int) -> bool {
    text::stands_at(path, dir, i) && (i == 0 || path[i - 1] == '/')
}

/// `path` lies in the directory of the crate `gate`.
pub open spec fn lies_in_crate(path: Seq<char>, gate: Seq<char>) -> bool {
    exists|i: int| enters(slashed(path), crate_dir(gate), i)
}

/// Whether the directory `dir` begins somewhere in `path`.
fn leads_through(path: &str, dir: &str) -> (r: bool)
    ensures
        r == exists|i: int| enters(path@, dir@, i),
{
    if starts(path, dir) {
        assert(enters(path@, dir@, 0));
        return true;
    }
    let mut below = owned("/");
    below.push_str(dir);
    let r = holds_part(path, below.as_str());
    proof {
        reveal_strlit("/");
        let s = path@;
        let d = dir@;
        let b = below@;
        assert(b.len() == d.len() + 1 && b[0] == '/' && b.skip(1) =~= d);
        if r {
            let j = choose|j: int| text::stands_at(s, b, j);
            assert(s.subrange(j, j + b.len())[0] == '/');
            assert(s.subrange(j + 1, j + 1 + d.len()) =~= s.subrange(j, j + b.len()).skip(1));
            assert(enters(s, d, j + 1));
        }
        if exists|i: int| enters(s, d, i) {
            let i = choose|i: int| enters(s, d, i);
            assert(s.subrange(i - 1, i - 1 + b.len()) =~= b) by {
                assert forall|k: int| 0 <= k < b.len() implies s.subrange(i - 1, i - 1 + b.len())[k]
                    == b[k] by {
                    if k > 0 {
                        assert(s.subrange(i, i + d.len())[k - 1] == d[k - 1]);
                        assert(b.skip(1)[k - 1] == b[k]);
                    }
                }
            }
            assert(text::stands_at(s, b, i - 1));
        }
    }
    r
}

fn slashed_text(path: &str) -> (r: String)
    ensures
        r@ == slashed(path@),
{
    let chars = to_chars(path);
    let mut out = String::new();
    let mut i: usize = 0;
    while i < chars.len()
        invariant
            i <= chars@.len(),
            out@ == slashed(chars@).take(i as int),
        decreases chars@.len() - i,
    {
        if chars[i] == '\\' {
            out.push('/');
        } else {
            out.push(chars[i]);
        }
        assert(out@ =~= slashed(chars@).take(i as int + 1));
        i += 1;
    }
    assert(out@ =~= slashed(chars@));
    out
}

/// Whether any changed file lies in one of the crates whose changes are worth a
/// panel.
pub fn touches_gate_crate(files: &[String], gate_crates: &[&str]) -> (r: bool)
    ensures
        r == exists|i: int, j: int|
            0 <= i < files@.len() && 0 <= j < gate_crates@.len() && lies_in_crate(
                (#[trigger] files@[i])@,
                (#[trigger] gate_crates@[j])@,
            ),
{
    let mut i: usize = 0;
    while i < files.len()
        invariant
            i <= files@.len(),
            forall|k: int, j: int|
                0 <= k < i && 0 <= j < gate_crates@.len() ==> !lies_in_crate(
                    (#[trigger] files@[k])@,
                    (#[trigger] gate_crates@[j])@,
                ),
        decreases files@.len() - i,
    {
        let path = slashed_text(files[i].as_str());
        let mut j: usize = 0;
        while j < gate_crates.len()
            invariant
                i < files@.len(),
                j <= gate_crates@.len(),
                path@ == slashed(files@[i as int]@),
                forall|k: int|
                    0 <= k < j ==> !lies_in_crate(
                        files@[i as int]@,
                        (#[trigger] gate_crates@[k])@,
                    ),
            decreases gate_crates@.len() - j,
        {
            let mut part = owned("crates/");
            part.push_str(gate_crates[j]);
            part.push_str("/");
            assert(part@ =~= crate_dir(gate_crates@[j as int]@));
            if leads_through(path.as_str(), part.as_str()) {
                assert(lies_in_crate(files@[i as int]@, gate_crates@[j as int]@));
                return true;
            }
            j += 1;
        }
        i += 1;
    }
    false
}

/// Whether to convene a panel, and how wide.
#[derive(Debug)]
pub struct PanelPlan {
    pub engaged: bool,
    /// How many skeptics to ask.
    pub size: usize,
    pub min_voters: usize,
    /// The change touches a crate that forces a panel.
    pub high_stakes: bool,
}

/// `wanted`, brought into the range from two to [`MAX_PANEL`].
pub open spec fn panel_width(wanted: int) -> int {
    if wanted < 2 {
        2
    } else if wanted > MAX_PANEL {
        MAX_PANEL as int
    } else {
        wanted
    }
}

/// The panel for one change: engaged by the global switch or by high stakes,
/// and a single verifier where it is not.
pub fn plan(
    global_enabled: bool,
    configured_size: usize,
    policy: &Policy,
    high_stakes: bool,
) -> (p: PanelPlan)
    ensures
        p.engaged == (global_enabled || high_stakes),
        p.size == (if p.engaged {
            panel_width(configured_size as int)
        } else {
            1
        }),
        p.min_voters == policy.min_voters,
        p.high_stakes == high_stakes,
        global_enabled ==> p.engaged,
        high_stakes ==> p.engaged,
        !global_enabled && !high_stakes ==> !p.engaged && p.size == 1,
        p.engaged ==> 2 <= p.size <= 5,
        p.engaged && 2 <= configured_size <= 5 ==> p.size == configured_size,
{
    let engaged = global_enabled || high_stakes;
    let size: usize = if !engaged {
        1
    } else if configured_size < 2 {
        2
    } else if configured_size > MAX_PANEL {
        MAX_PANEL
    } else {
        configured_size
    };
    PanelPlan { engaged, size, min_voters: policy.min_voters, high_stakes }
}

// ---- laws ----------------------------------------------------------------

proof fn lemma_cast_last(votes: Seq<Vote>)
    requires
        votes.len() > 0,
    ensures
        cast(votes) == cast(votes.drop_last()).insert(votes.last()@),
{
    broadcast use vstd::seq_lib::group_to_multiset_ensures;

    let before = votes.drop_last().map_values(|v: Vote| v@);
    assert(votes.map_values(|v: Vote| v@) =~= before.push(votes.last()@));
}

proof fn lemma_filter_insert(
    all: Multiset<VoteView>,
    v: VoteView,
    keep: spec_fn(VoteView) -> bool,
)
    ensures
        all.insert(v).filter(keep).len() == all.filter(keep).len() + (if keep(v) {
            1nat
        } else {
            0nat
        }),
{
    if keep(v) {
        assert(all.insert(v).filter(keep) =~= all.filter(keep).insert(v));
    } else {
        assert(all.insert(v).filter(keep) =~= all.filter(keep));
    }
}

proof fn lemma_no_votes(votes: Seq<Vote>, keep: spec_fn(VoteView) -> bool)
    requires
        votes.len() == 0,
    ensures
        cast(votes).filter(keep).len() == 0,
{
    broadcast use vstd::seq_lib::group_to_multiset_ensures;

    assert(votes.map_values(|v: Vote| v@).len() == 0);
    assert(cast(votes) =~= Multiset::<VoteView>::empty());
    assert(cast(votes).filter(keep) =~= Multiset::<VoteView>::empty());
}

/// How often a ballot was cast can be counted without an order.
proof fn lemma_ballot_count(votes: Seq<Vote>, b: Ballot)
    ensures
        ballots(votes).count(b) == cast(votes).filter(|v: VoteView| v.ballot == b).len(),
    decreases votes.len(),
{
    broadcast use vstd::seq_lib::group_to_multiset_ensures;

    let keep = |v: VoteView| v.ballot == b;
    if votes.len() == 0 {
        lemma_no_votes(votes, keep);
        lemma_ballots_ends(votes);
        assert(votes.take(0) =~= votes);
    } else {
        let k = votes.len() - 1;
        lemma_ballot_count(votes.drop_last(), b);
        lemma_cast_last(votes);
        lemma_filter_insert(cast(votes.drop_last()), votes.last()@, keep);
        lemma_ballots_push(votes, k);
        assert(votes.take(k) =~= votes.drop_last());
        assert(votes.take(k + 1) =~= votes);
    }
}

/// How often an objection was raised can be counted without an order.
proof fn lemma_objection_count(votes: Seq<Vote>, t: Seq<char>)
    ensures
        objections(votes).to_multiset().count(t) == cast(votes).filter(
            |v: VoteView| v.ballot == Ballot::Refute && objection(v) == t,
        ).len(),
    decreases votes.len(),
{
    broadcast use vstd::seq_lib::group_to_multiset_ensures;

    let keep = |v: VoteView| v.ballot == Ballot::Refute && objection(v) == t;
    if votes.len() == 0 {
        lemma_no_votes(votes, keep);
        assert(objections(votes).len() == 0);
        assert(objections(votes).to_multiset() =~= Multiset::<Seq<char>>::empty());
    } else {
        lemma_objection_count(votes.drop_last(), t);
        lemma_cast_last(votes);
        lemma_filter_insert(cast(votes.drop_last()), votes.last()@, keep);
    }
}

/// The ruling does not depend on the order of the votes, and neither do the
/// objections apart from their own order.
pub proof fn adjudicate_is_order_independent(
    one: Seq<Vote>,
    other: Seq<Vote>,
    policy: Policy,
    share: RefuteShare,
    expected: nat,
    p: Panel,
    q: Panel,
)
    requires
        cast(one) == cast(other),
        adjudicated(one, policy, share, expected, p),
        adjudicated(other, policy, share, expected, q),
    ensures
        p.n == q.n,
        p.refutes == q.refutes,
        p.passes == q.passes,
        p.abstains == q.abstains,
        p.block == q.block,
        p.escalate == q.escalate,
        p.outcome@ == q.outcome@,
        p.reason@ == q.reason@,
        p.missing == q.missing,
        text::texts(p.refutations@).to_multiset() == text::texts(q.refutations@).to_multiset(),
{
    lemma_ballots_ends(one);
    lemma_ballots_ends(other);
    assert forall|b: Ballot| ballots(one).count(b) == ballots(other).count(b) by {
        lemma_ballot_count(one, b);
        lemma_ballot_count(other, b);
    }
    assert(ballots(one) =~= ballots(other));
    assert forall|t: Seq<char>|
        objections(one).to_multiset().count(t) == objections(other).to_multiset().count(t) by {
        lemma_objection_count(one, t);
        lemma_objection_count(other, t);
    }
    assert(objections(one).to_multiset() =~= objections(other).to_multiset());
}

/// How restrictive an outcome is.
pub open spec fn severity(outcome: Seq<char>) -> int {
    if outcome == "block"@ {
        2
    } else if outcome == "escalate"@ {
        1
    } else {
        0
    }
}

/// One more objection never makes the panel more permissive: where a skeptic
/// refutes in place of passing, and the share of the refuters does not fall below
/// the block ratio for it, the outcome is at least as restrictive.
pub proof fn one_more_objection_is_never_more_permissive(
    before: Seq<Vote>,
    after: Seq<Vote>,
    i: int,
    policy: Policy,
    share_before: RefuteShare,
    share_after: RefuteShare,
    expected: nat,
    p: Panel,
    q: Panel,
)
    requires
        0 <= i < before.len(),
        after.len() == before.len(),
        before[i].ballot == Ballot::Pass,
        after[i].ballot == Ballot::Refute,
        forall|j: int|
            0 <= j < before.len() && j != i ==> (#[trigger] after[j]).ballot == before[j].ballot,
        share_before.reaches ==> share_after.reaches,
        adjudicated(before, policy, share_before, expected, p),
        adjudicated(after, policy, share_after, expected, q),
    ensures
        q.refutes == p.refutes + 1,
        q.effective == p.effective,
        severity(p.outcome@) <= severity(q.outcome@),
{
    broadcast use vstd::seq_lib::group_to_multiset_ensures;

    let a = before.map_values(|v: Vote| v.ballot);
    let b = after.map_values(|v: Vote| v.ballot);
    assert(a.remove(i) =~= b.remove(i));
    assert(a[i] == Ballot::Pass && b[i] == Ballot::Refute);
    assert(a.contains(a[i]) && b.contains(b[i]));
    vstd::seq_lib::to_multiset_remove(a, i);
    vstd::seq_lib::to_multiset_remove(b, i);
    assert(a.to_multiset().remove(Ballot::Pass) == b.to_multiset().remove(Ballot::Refute));
    let left = a.to_multiset().remove(Ballot::Pass);
    assert(a.to_multiset() =~= left.insert(Ballot::Pass));
    assert(b.to_multiset() =~= left.insert(Ballot::Refute));
    lemma_ballots_ends(before);
    lemma_ballots_ends(after);
    reveal_strlit("block");
    reveal_strlit("escalate");
    reveal_strlit("pass");
    assert("block"@.len() == 5);
    assert("escalate"@.len() == 8);
    assert("pass"@.len() == 4);
}

/// Exactly one of the three outcomes is ruled, and the flags say which.
pub proof fn outcome_is_exhaustive_and_exclusive(
    votes: Seq<Vote>,
    policy: Policy,
    share: RefuteShare,
    expected: nat,
    p: Panel,
)
    requires
        adjudicated(votes, policy, share, expected, p),
    ensures
        p.outcome@ == "block"@ || p.outcome@ == "escalate"@ || p.outcome@ == "pass"@,
        p.block == (p.outcome@ == "block"@),
        p.escalate == (p.outcome@ == "escalate"@),
        (p.outcome@ == "pass"@) == (!p.block && !p.escalate),
        !(p.block && p.escalate),
{
    reveal_strlit("block");
    reveal_strlit("escalate");
    reveal_strlit("pass");
    assert("block"@.len() == 5);
    assert("escalate"@.len() == 8);
    assert("pass"@.len() == 4);
}

/// Every ballot is counted once.
pub proof fn counts_are_conserved(
    votes: Seq<Vote>,
    policy: Policy,
    share: RefuteShare,
    expected: nat,
    p: Panel,
)
    requires
        adjudicated(votes, policy, share, expected, p),
    ensures
        p.refutes + p.passes + p.abstains == p.n,
        p.effective == p.refutes + p.passes,
{
    lemma_counts_conserved(votes);
}

/// The panel fails closed: it passes only where enough skeptics voted, the
/// refuters do not reach the block ratio, no ballot is missing, and a dissent
/// is not the policy's to escalate.
pub proof fn only_a_cleared_change_passes(
    votes: Seq<Vote>,
    policy: Policy,
    share: RefuteShare,
    expected: nat,
    p: Panel,
)
    requires
        adjudicated(votes, policy, share, expected, p),
    ensures
        p.outcome@ == "pass"@ <==> p.effective >= policy.min_voters && !share.reaches && p.missing
            == 0 && (p.refutes == 0 || !policy.escalate_on_dissent),
{
    lemma_ballots_ends(votes);
    reveal_strlit("block");
    reveal_strlit("escalate");
    reveal_strlit("pass");
    assert("block"@.len() == 5);
    assert("escalate"@.len() == 8);
    assert("pass"@.len() == 4);
}

/// The ballots are counted one by one: how many of a kind were cast is how many
/// votes hold it.
pub proof fn ballots_are_counted(votes: Seq<Vote>, b: Ballot)
    ensures
        ballots(votes).count(b) == votes.filter(|v: Vote| v.ballot == b).len(),
        ballots(votes).len() == votes.len(),
    decreases votes.len(),
{
    reveal(Seq::filter);
    lemma_ballots_ends(votes);
    if votes.len() == 0 {
        assert(votes.take(0) =~= votes);
    } else {
        let before = votes.drop_last();
        ballots_are_counted(before, b);
        lemma_ballots_push(votes, votes.len() - 1);
        assert(votes.take(votes.len() - 1) =~= before);
        assert(votes.take(votes.len() - 1 + 1) =~= votes);
    }
}

/// The panel blocks exactly where too few voted or too many refuted; it goes on to
/// a human exactly where it does not block and a vote is missing, or one refuted
/// and dissent is to be heard; and it passes exactly otherwise.
pub proof fn the_panel_rules_by_its_counts(
    votes: Seq<Vote>,
    policy: Policy,
    share: RefuteShare,
    expected: nat,
    p: Panel,
)
    requires
        adjudicated(votes, policy, share, expected, p),
    ensures
        p.n == votes.len(),
        p.refutes == votes.filter(|v: Vote| v.ballot == Ballot::Refute).len(),
        p.passes == votes.filter(|v: Vote| v.ballot == Ballot::Pass).len(),
        p.abstains == votes.filter(|v: Vote| v.ballot == Ballot::Abstain).len(),
        p.effective == p.refutes + p.passes,
        p.min_voters == policy.min_voters,
        p.missing > 0 <==> expected > votes.len(),
        expected > votes.len() ==> p.missing == expected - votes.len(),
        p.block <==> p.refutes + p.passes < policy.min_voters || share.reaches,
        p.escalate <==> !p.block && (expected > votes.len() || (p.refutes > 0
            && policy.escalate_on_dissent)),
        p.block <==> p.outcome@ == "block"@,
        p.escalate <==> p.outcome@ == "escalate"@,
        !p.block && !p.escalate <==> p.outcome@ == "pass"@,
{
    ballots_are_counted(votes, Ballot::Refute);
    ballots_are_counted(votes, Ballot::Pass);
    ballots_are_counted(votes, Ballot::Abstain);
    reveal_strlit("block");
    reveal_strlit("escalate");
    reveal_strlit("pass");
    assert("block"@.len() == 5 && "escalate"@.len() == 8 && "pass"@.len() == 4);
}

/// The objections are those of the votes that refute, each and in their order,
/// under the name of who refuted; and a reason is told where one was given.
pub proof fn every_refutation_is_told(votes: Seq<Vote>, v: VoteView)
    ensures
        objections(votes) == votes.filter(|w: Vote| w.ballot == Ballot::Refute).map_values(
            |w: Vote| objection(w@),
        ),
        v.reason is None ==> objection(v) == v.skeptic,
        v.reason is Some && text::trim(v.reason->0).len() == 0 ==> objection(v) == v.skeptic,
        v.reason is Some && text::trim(v.reason->0).len() != 0 ==> objection(v) == v.skeptic + ": "@
            + v.reason->0,
    decreases votes.len(),
{
    reveal(Seq::filter);
    let refutes = |w: Vote| w.ballot == Ballot::Refute;
    let tell = |w: Vote| objection(w@);
    if votes.len() > 0 {
        let before = votes.drop_last();
        every_refutation_is_told(before, v);
        assert(before.filter(refutes).push(votes.last()).map_values(tell) =~= before.filter(
            refutes,
        ).map_values(tell).push(tell(votes.last())));
    }
    assert(objections(votes) =~= votes.filter(refutes).map_values(tell));
}

/// A path lies in a crate where the directory of the crate stands in it at the
/// start or right after a separator, of either kind; and only there.
pub proof fn a_path_lies_in_the_crate_it_enters(path: Seq<char>, gate: Seq<char>, i: int)
    ensures
        ({
            let plain = path.map_values(
                |c: char|
                    if c == '\\' {
                        '/'
                    } else {
                        c
                    },
            );
            let dir = "crates/"@ + gate + "/"@;
            &&& 0 <= i && i + dir.len() <= path.len() && plain.subrange(i, i + dir.len()) == dir
                && (i == 0 || path[i - 1] == '/' || path[i - 1] == '\\') ==> lies_in_crate(path, gate)
            &&& lies_in_crate(path, gate) ==> exists|k: int|
                0 <= k <= path.len() - dir.len() && #[trigger] plain.subrange(k, k + dir.len())
                    == dir && (k == 0 || path[k - 1] == '/' || path[k - 1] == '\\')
        }),
{
    let plain = path.map_values(
        |c: char|
            if c == '\\' {
                '/'
            } else {
                c
            },
    );
    let dir = "crates/"@ + gate + "/"@;
    assert(slashed(path) =~= plain);
    assert(crate_dir(gate) =~= dir);
    if 0 <= i && i + dir.len() <= path.len() && plain.subrange(i, i + dir.len()) == dir && (i == 0
        || path[i - 1] == '/' || path[i - 1] == '\\') {
        assert(enters(slashed(path), crate_dir(gate), i));
    }
    if lies_in_crate(path, gate) {
        let k = choose|k: int| enters(slashed(path), crate_dir(gate), k);
        assert(plain.subrange(k, k + dir.len()) == dir);
        if k > 0 {
            assert(plain[k - 1] == '/');
        }
    }
}

/// A panel is as wide as it was asked to be, where that is from two to five, and
/// the nearest such width otherwise.
pub proof fn a_panel_is_as_wide_as_asked_for(wanted: int, more: int)
    ensures
        2 <= wanted <= 5 ==> panel_width(wanted) == wanted,
        wanted <= 2 ==> panel_width(wanted) == 2,
        wanted >= 5 ==> panel_width(wanted) == 5,
        wanted <= more ==> panel_width(wanted) <= panel_width(more),
{
}

} // verus!
