use condukt::adversarial::{
    adjudicate, plan, refute_count, touches_gate_crate, Ballot, Panel, Policy, RefuteShare, Vote,
    DEFAULT_PANEL, MAX_PANEL,
};

/// The share of refutations at which a panel blocks unless told otherwise.
const DEFAULT_BLOCK_RATIO: f64 = 0.5;
const RATIO_EPSILON: f64 = 1e-9;

const GATE_CRATES: [&str; 3] = ["blastguard", "mutategate", "overwatch"];

fn v(skeptic: &str, ballot: Ballot) -> Vote {
    Vote { skeptic: skeptic.into(), ballot, reason: None }
}

fn share(votes: &[Vote], block_ratio: f64) -> RefuteShare {
    let (refutes, effective) = refute_count(votes);
    let ratio = if effective > 0 { refutes as f64 / effective as f64 } else { 0.0 };
    RefuteShare {
        reaches: refutes as f64 + RATIO_EPSILON >= block_ratio * effective as f64,
        percent: format!("{:.0}", ratio * 100.0),
        block_percent: format!("{:.0}", block_ratio * 100.0),
    }
}

fn judge(votes: &[Vote], policy: &Policy, block_ratio: f64, expected: usize) -> Panel {
    adjudicate(votes, policy, &share(votes, block_ratio), expected)
}

fn judge_default(votes: &[Vote], expected: usize) -> Panel {
    judge(votes, &Policy::default(), DEFAULT_BLOCK_RATIO, expected)
}

fn paths(list: &[&str]) -> Vec<String> {
    list.iter().map(|s| s.to_string()).collect()
}

#[test]
fn unanimous_pass_passes() {
    let votes = vec![v("a", Ballot::Pass), v("b", Ballot::Pass), v("c", Ballot::Pass)];
    let p = judge_default(&votes, votes.len());
    assert_eq!(p.outcome, "pass");
    assert!(!p.block && !p.escalate);
    assert_eq!(p.effective, 3);
}

#[test]
fn majority_refute_blocks() {
    let votes = vec![v("a", Ballot::Refute), v("b", Ballot::Refute), v("c", Ballot::Pass)];
    let p = judge_default(&votes, votes.len());
    assert_eq!(p.outcome, "block");
    assert!(p.block);
}

#[test]
fn refutations_carry_skeptic_and_reason() {
    let votes = vec![
        Vote {
            skeptic: "s1".into(),
            ballot: Ballot::Refute,
            reason: Some("detect.rs:477 fail-open".into()),
        },
        Vote { skeptic: "s2".into(), ballot: Ballot::Refute, reason: None },
        v("s3", Ballot::Pass),
    ];
    let p = judge_default(&votes, votes.len());
    assert_eq!(p.outcome, "block");
    assert_eq!(
        p.refutations,
        vec!["s1: detect.rs:477 fail-open".to_string(), "s2".to_string()]
    );
}

#[test]
fn no_refutes_yields_empty_refutations() {
    let votes = vec![v("a", Ballot::Pass), v("b", Ballot::Pass), v("c", Ballot::Pass)];
    let p = judge_default(&votes, votes.len());
    assert!(p.refutations.is_empty());
}

#[test]
fn tie_blocks_fail_closed() {
    let votes = vec![
        v("a", Ballot::Refute),
        v("b", Ballot::Refute),
        v("c", Ballot::Pass),
        v("d", Ballot::Pass),
    ];
    let p = judge_default(&votes, votes.len());
    assert_eq!(p.outcome, "block", "an even split must fail closed");
}

#[test]
fn below_min_voters_blocks() {
    let votes = vec![v("a", Ballot::Pass)];
    let p = judge_default(&votes, votes.len());
    assert_eq!(p.outcome, "block");
    assert!(p.block);
}

#[test]
fn all_abstain_blocks() {
    let votes = vec![v("a", Ballot::Abstain), v("b", Ballot::Abstain), v("c", Ballot::Abstain)];
    let p = judge_default(&votes, votes.len());
    assert_eq!(p.effective, 0);
    assert_eq!(p.outcome, "block", "no effective voters → fail-closed");
}

#[test]
fn minority_dissent_escalates() {
    let votes = vec![
        v("a", Ballot::Refute),
        v("b", Ballot::Pass),
        v("c", Ballot::Pass),
        v("d", Ballot::Pass),
    ];
    let p = judge_default(&votes, votes.len());
    assert_eq!(p.outcome, "escalate");
    assert!(p.escalate && !p.block);
}

#[test]
fn minority_dissent_passes_when_escalation_disabled() {
    let votes = vec![
        v("a", Ballot::Refute),
        v("b", Ballot::Pass),
        v("c", Ballot::Pass),
        v("d", Ballot::Pass),
    ];
    let policy = Policy { escalate_on_dissent: false, ..Policy::default() };
    let p = judge(&votes, &policy, DEFAULT_BLOCK_RATIO, votes.len());
    assert_eq!(p.outcome, "pass");
}

#[test]
fn abstains_lower_the_effective_denominator() {
    let votes = vec![
        v("a", Ballot::Refute),
        v("b", Ballot::Pass),
        v("c", Ballot::Abstain),
        v("d", Ballot::Abstain),
    ];
    let p = judge_default(&votes, votes.len());
    assert_eq!(p.effective, 2);
    assert_eq!(p.abstains, 2);
    assert_eq!(p.outcome, "block");
}

#[test]
fn stricter_block_ratio_blocks_on_single_refute() {
    let votes = vec![
        v("a", Ballot::Refute),
        v("b", Ballot::Pass),
        v("c", Ballot::Pass),
        v("d", Ballot::Pass),
    ];
    let p = judge(&votes, &Policy::default(), 0.25, votes.len());
    assert_eq!(p.outcome, "block");
}

#[test]
fn touches_gate_crate_detects_gates() {
    assert!(touches_gate_crate(
        &paths(&["crates/blastguard/src/detect.rs", "README.md"]),
        &GATE_CRATES
    ));
    assert!(touches_gate_crate(&paths(&["crates/mutategate/src/lib.rs"]), &GATE_CRATES));
    assert!(touches_gate_crate(&paths(&["crates/overwatch/src/lib.rs"]), &GATE_CRATES));
    assert!(touches_gate_crate(
        &paths(&["crates/overwatch/skills/continuous-audit/SKILL.md", "README.md"]),
        &GATE_CRATES
    ));
    assert!(!touches_gate_crate(&paths(&["docs/specs/overwatch.md"]), &GATE_CRATES));
    assert!(!touches_gate_crate(
        &paths(&["crates/condukt/src/main.rs", "docs/foo.md"]),
        &GATE_CRATES
    ));
    assert!(!touches_gate_crate(&paths(&["docs/specs/blastguard.md"]), &GATE_CRATES));
    assert!(!touches_gate_crate(&[], &GATE_CRATES));
}

#[test]
fn a_gate_crate_is_a_directory_of_its_own() {
    assert!(!touches_gate_crate(&paths(&["docs/notcrates/blastguard/readme.md"]), &GATE_CRATES));
    assert!(!touches_gate_crate(&paths(&["crates/blastguard.md"]), &GATE_CRATES));
    assert!(touches_gate_crate(&paths(&["/repo/crates/blastguard/readme.md"]), &GATE_CRATES));
    assert!(touches_gate_crate(
        &paths(&["notcrates/blastguard/crates/overwatch/x.rs"]),
        &GATE_CRATES
    ));
}

#[test]
fn one_more_objection_is_no_more_permissive() {
    let severity = |outcome: &str| ["pass", "escalate", "block"].iter().position(|o| *o == outcome);
    for refuters in 0..4usize {
        let panel = |n: usize| {
            let votes: Vec<Vote> = (0..4)
                .map(|i| v("s", if i < n { Ballot::Refute } else { Ballot::Pass }))
                .collect();
            judge_default(&votes, votes.len()).outcome
        };
        assert!(severity(panel(refuters)) <= severity(panel(refuters + 1)));
    }
}

#[test]
fn backslashes_separate_directories_too() {
    assert!(touches_gate_crate(&paths(&["crates\\blastguard\\src\\detect.rs"]), &GATE_CRATES));
}

#[test]
fn plan_disabled_by_default_is_single_verifier() {
    let plan = plan(false, DEFAULT_PANEL, &Policy::default(), false);
    assert!(!plan.engaged);
    assert_eq!(plan.size, 1);
}

#[test]
fn plan_high_stakes_forces_panel_even_when_global_off() {
    let plan = plan(false, DEFAULT_PANEL, &Policy::default(), true);
    assert!(plan.engaged);
    assert_eq!(plan.size, DEFAULT_PANEL);
    assert!(plan.high_stakes);
}

#[test]
fn plan_global_switch_engages_panel() {
    let plan = plan(true, DEFAULT_PANEL, &Policy::default(), false);
    assert!(plan.engaged);
    assert!(plan.size >= 2);
}

#[test]
fn plan_clamps_size_to_ceiling_and_floor() {
    assert_eq!(plan(true, 99, &Policy::default(), false).size, MAX_PANEL);
    assert_eq!(plan(true, 1, &Policy::default(), false).size, 2);
}

#[test]
fn missing_votes_escalates_even_when_received_votes_all_pass() {
    let votes = vec![v("a", Ballot::Pass), v("b", Ballot::Pass)];
    let p = judge_default(&votes, 3);
    assert_eq!(
        p.outcome, "escalate",
        "a silent third skeptic must not be counted as a non-objection: {p:?}"
    );
    assert!(!p.block, "missing votes escalate, they do not block: {p:?}");
    assert_eq!(p.missing, 1, "expected 3 - received 2 = 1 missing vote");
}

#[test]
fn adversarial_omitting_expected_preserves_old_behavior() {
    let votes = vec![v("a", Ballot::Pass), v("b", Ballot::Pass)];
    let p = judge_default(&votes, votes.len());
    assert_eq!(p.outcome, "pass");
    assert_eq!(p.missing, 0);
}

#[test]
fn the_order_of_the_ballots_does_not_matter() {
    let a = vec![v("a", Ballot::Refute), v("b", Ballot::Pass), v("c", Ballot::Abstain)];
    let b = vec![v("c", Ballot::Abstain), v("a", Ballot::Refute), v("b", Ballot::Pass)];
    let p = judge_default(&a, 3);
    let q = judge_default(&b, 3);
    assert_eq!(p.outcome, q.outcome);
    assert_eq!(p.reason, q.reason);
    assert_eq!((p.refutes, p.passes, p.abstains), (q.refutes, q.passes, q.abstains));
    assert_eq!(p.refutes + p.passes + p.abstains, p.n);
    assert_eq!(p.effective, p.refutes + p.passes);
}

#[test]
fn every_outcome_says_why() {
    let few = vec![v("a", Ballot::Pass)];
    assert_eq!(
        judge_default(&few, 1).reason,
        "only 1 effective skeptic(s) (< min 2) — cannot adversarially verify a high-stakes \
         completion → fail-closed block"
    );
    let most = vec![v("a", Ballot::Refute), v("b", Ballot::Refute), v("c", Ballot::Pass)];
    assert_eq!(
        judge_default(&most, 3).reason,
        "2/3 skeptics refuted (67% >= 50% block ratio) → block"
    );
    let silent = vec![v("a", Ballot::Pass), v("b", Ballot::Pass)];
    assert_eq!(
        judge_default(&silent, 3).reason,
        "1 of 3 expected skeptic(s) never voted (2 ballot(s) received) — a missing vote cannot be \
         counted as a non-objection → escalate"
    );
    let dissent = vec![
        v("a", Ballot::Refute),
        v("b", Ballot::Pass),
        v("c", Ballot::Pass),
        v("d", Ballot::Pass),
    ];
    assert_eq!(
        judge_default(&dissent, 4).reason,
        "1/4 skeptics refuted (below the 50% block ratio) — minority dissent on a high-stakes \
         gate → escalate to a human / stronger judge"
    );
    assert_eq!(
        judge_default(&silent, 2).reason,
        "2/2 skeptics could not refute (0 refute(s)) → pass"
    );
}
