use condukt::consensus::{
    plan, risk_is_high, tally, top_votes, Agreement, Consensus, Verdict, DEFAULT_SAMPLES,
    IMPLICIT_GROUP, MAX_SAMPLES,
};

const DEFAULT_THRESHOLD: f64 = 0.5;
const SESSION_CAP: usize = 3;

fn v(candidate: &str, pass: bool) -> Verdict {
    Verdict { candidate: candidate.to_string(), pass, group: None }
}

fn vg(candidate: &str, pass: bool, group: &str) -> Verdict {
    Verdict { candidate: candidate.to_string(), pass, group: Some(group.to_string()) }
}

fn approx(a: f64, b: f64) -> bool {
    (a - b).abs() < 1e-9
}

fn agreement_rate(verdicts: &[Verdict]) -> f64 {
    if verdicts.is_empty() {
        0.0
    } else {
        top_votes(verdicts) as f64 / verdicts.len() as f64
    }
}

fn vote(verdicts: &[Verdict], threshold: f64, expected: usize) -> Consensus {
    let rate = agreement_rate(verdicts);
    let agreement = Agreement {
        below: rate < threshold,
        percent: format!("{:.0}", rate * 100.0),
        threshold_percent: format!("{:.0}", threshold * 100.0),
    };
    tally(verdicts, &agreement, expected)
}

#[test]
fn all_pass_unanimous_no_escalation() {
    let verdicts = [v("a", true), v("b", true), v("c", true)];
    let c = vote(&verdicts, DEFAULT_THRESHOLD, verdicts.len());
    assert_eq!(c.passing, 3);
    assert_eq!(c.winning_votes, 3);
    assert!(approx(agreement_rate(&verdicts), 1.0));
    assert!(!c.escalate, "unanimous pass must not escalate: {c:?}");
    assert_eq!(c.winner.as_deref(), Some("a"));
    assert_eq!(c.winning_group.as_deref(), Some(IMPLICIT_GROUP));
}

#[test]
fn majority_pass_over_one_fail_takes_winner() {
    let verdicts = [v("z", true), v("m", true), v("q", false)];
    let c = vote(&verdicts, DEFAULT_THRESHOLD, verdicts.len());
    assert_eq!(c.passing, 2);
    assert_eq!(c.winning_votes, 2);
    assert!(approx(agreement_rate(&verdicts), 2.0 / 3.0));
    assert!(!c.escalate, "67% agreement clears 50%: {c:?}");
    assert_eq!(c.winner.as_deref(), Some("m"), "smallest passing id wins");
}

#[test]
fn grouped_majority_picks_largest_bucket() {
    let verdicts = [
        vg("a1", true, "A"),
        vg("a2", true, "A"),
        vg("a3", true, "A"),
        vg("b1", true, "B"),
    ];
    let c = vote(&verdicts, DEFAULT_THRESHOLD, verdicts.len());
    assert_eq!(c.winning_group.as_deref(), Some("A"));
    assert_eq!(c.winning_votes, 3);
    assert!(approx(agreement_rate(&verdicts), 3.0 / 4.0));
    assert!(!c.escalate);
    assert_eq!(c.winner.as_deref(), Some("a1"));
}

#[test]
fn tie_between_groups_escalates() {
    let verdicts = [vg("b1", true, "B"), vg("a1", true, "A")];
    let c = vote(&verdicts, DEFAULT_THRESHOLD, verdicts.len());
    assert!(c.escalate, "an even split must escalate: {c:?}");
    assert_eq!(c.escalate_to, "opus");
    assert_eq!(c.winning_group.as_deref(), Some("A"));
    assert_eq!(c.winner.as_deref(), Some("a1"));
    assert!(c.reason.contains("tie"), "{}", c.reason);
}

#[test]
fn four_way_even_split_escalates() {
    let verdicts = [
        vg("a", true, "A"),
        vg("b", true, "A"),
        vg("c", true, "B"),
        vg("d", true, "B"),
    ];
    let c = vote(&verdicts, DEFAULT_THRESHOLD, verdicts.len());
    assert!(c.escalate);
    assert_eq!(c.winning_votes, 2);
    assert!(approx(agreement_rate(&verdicts), 0.5));
}

#[test]
fn below_threshold_escalates() {
    let verdicts = [v("a", true), v("b", false), v("c", false)];
    let c = vote(&verdicts, DEFAULT_THRESHOLD, verdicts.len());
    assert_eq!(c.passing, 1);
    assert!(approx(agreement_rate(&verdicts), 1.0 / 3.0));
    assert!(c.escalate, "33% agreement is below 50%: {c:?}");
    assert_eq!(c.escalate_to, "opus");
    assert!(c.reason.contains("escalate"));
}

#[test]
fn threshold_is_inclusive_lower_bound() {
    let verdicts = [v("a", true), v("b", false)];
    let c = vote(&verdicts, 0.5, verdicts.len());
    assert!(approx(agreement_rate(&verdicts), 0.5));
    assert!(!c.escalate, "agreement == threshold must be accepted: {c:?}");
}

#[test]
fn custom_high_threshold_forces_escalation() {
    let verdicts = [v("a", true), v("b", true), v("c", false)];
    let c = vote(&verdicts, 0.9, verdicts.len());
    assert!(approx(agreement_rate(&verdicts), 2.0 / 3.0));
    assert!(c.escalate, "67% < 90% strict threshold: {c:?}");
}

#[test]
fn all_fail_escalates_with_no_winner() {
    let verdicts = [v("a", false), v("b", false), v("c", false)];
    let c = vote(&verdicts, DEFAULT_THRESHOLD, verdicts.len());
    assert_eq!(c.passing, 0);
    assert_eq!(c.winner, None);
    assert_eq!(c.winning_group, None);
    assert!(approx(agreement_rate(&verdicts), 0.0));
    assert!(c.escalate);
    assert!(c.reason.contains("0/3"), "{}", c.reason);
}

#[test]
fn empty_verdicts_escalate() {
    let c = vote(&[], DEFAULT_THRESHOLD, 0);
    assert_eq!(c.n, 0);
    assert_eq!(c.winner, None);
    assert!(c.escalate);
}

#[test]
fn n1_pass_is_trivially_consensual() {
    let verdicts = [v("only", true)];
    let c = vote(&verdicts, DEFAULT_THRESHOLD, 1);
    assert_eq!(c.n, 1);
    assert!(approx(agreement_rate(&verdicts), 1.0));
    assert!(!c.escalate);
    assert_eq!(c.winner.as_deref(), Some("only"));
}

#[test]
fn n1_fail_escalates() {
    let c = vote(&[v("only", false)], DEFAULT_THRESHOLD, 1);
    assert_eq!(c.passing, 0);
    assert!(c.escalate);
    assert_eq!(c.winner, None);
}

#[test]
fn winner_is_order_independent() {
    let a = [v("c", true), v("a", true), v("b", true)];
    let b = [v("b", true), v("c", true), v("a", true)];
    assert_eq!(vote(&a, 0.5, a.len()).winner, vote(&b, 0.5, b.len()).winner);
    assert_eq!(vote(&a, 0.5, a.len()).winner.as_deref(), Some("a"));
}

#[test]
fn plan_disabled_by_default_is_single_sample() {
    let p = plan(false, DEFAULT_SAMPLES, SESSION_CAP, None);
    assert!(!p.enabled, "consensus must be opt-in (off by default)");
    assert_eq!(p.samples, 1, "disabled → ordinary single implementation");
}

#[test]
fn plan_global_switch_enables_fanout() {
    let p = plan(true, DEFAULT_SAMPLES, SESSION_CAP, None);
    assert!(p.enabled);
    assert_eq!(p.samples, DEFAULT_SAMPLES);
}

#[test]
fn plan_high_risk_forces_fanout_even_when_global_off() {
    let p = plan(false, DEFAULT_SAMPLES, SESSION_CAP, Some("high"));
    assert!(p.enabled, "a high-risk task fans out even if the switch is off");
    assert_eq!(p.samples, DEFAULT_SAMPLES);
    assert!(risk_is_high(Some("HIGH")));
    assert!(risk_is_high(Some("critical")));
    assert!(!risk_is_high(Some("low")));
    assert!(!risk_is_high(None));
}

#[test]
fn plan_clamps_samples_to_ceiling_and_floor() {
    for cap in [1, 2, 3, 4, 5, 9] {
        let ceiling = MAX_SAMPLES.min(cap).max(2);
        assert_eq!(plan(true, 99, cap, None).samples, ceiling);
        assert_eq!(plan(true, 1, cap, None).samples, 2);
    }
}

#[test]
fn missing_verdicts_escalates_even_when_received_verdicts_agree() {
    let verdicts = [v("a", true), v("b", true)];
    let c = vote(&verdicts, DEFAULT_THRESHOLD, 3);
    assert!(
        c.escalate,
        "a silent third verifier must not be counted as agreement: {c:?}"
    );
    assert_eq!(c.winner, None, "must not settle a winner on a partial vote");
    assert_eq!(c.missing, 1, "expected 3 - received 2 = 1 missing verdict");
}

#[test]
fn consensus_omitting_expected_preserves_old_behavior() {
    let verdicts = [v("a", true), v("b", true)];
    let c = vote(&verdicts, DEFAULT_THRESHOLD, verdicts.len());
    assert!(!c.escalate);
    assert_eq!(c.winner.as_deref(), Some("a"));
    assert_eq!(c.missing, 0);
}

#[test]
fn fanout_width_is_bounded_by_the_session_cap() {
    for requested in [2, 3, 5, 99] {
        let p = plan(true, requested, SESSION_CAP, None);
        assert!(
            p.samples <= SESSION_CAP,
            "samples {} for requested {requested} exceeds the session cap",
            p.samples
        );
    }
}

#[test]
fn every_decision_says_why() {
    let agreed = [v("a", true), v("b", true), v("c", false)];
    assert_eq!(
        vote(&agreed, 0.5, 3).reason,
        "consensus: 2/3 = 67% agreed on '__pass__' (>= 50% threshold) → take 'a'"
    );
    assert_eq!(
        vote(&agreed, 0.9, 3).reason,
        "agreement 2/3 = 67% < 90% threshold → escalate to opus"
    );
    assert_eq!(
        vote(&agreed, 0.5, 5).reason,
        "2 of 5 expected verdict(s) never arrived (3 received) — a missing verdict cannot be \
         counted as agreement → escalate"
    );
}
