use condukt::commands::{
    canonical_tier_for_log, claim_session, default_config, effective_threshold, has_input,
    launch_path, loop_exit, no_escalation, open_lines, orphan_line, plan_exit, replan_record,
    run_policy_record, sandbox_path, session_from, tier_of, undeleted_line, unknown_module,
    validate, vote_exit, worktree_line, Directive, LaunchPath, LaunchRequest, RunPolicyDecision,
    RunPolicyVerdict, SandboxPath,
};
use condukt::consensus::{plan, tally, Agreement};
use condukt::escalate::{add_escalation, Registry};

#[test]
fn a_plan_is_valid_or_its_errors_are_listed() {
    assert_eq!(validate(3, &Vec::new()), Ok("ok: 3 task(s)".to_string()));
    assert_eq!(
        validate(3, &vec!["a".to_string(), "b".to_string()]),
        Err("invalid:\n  - a\n  - b".to_string())
    );
}

#[test]
fn the_run_policy_comes_before_every_other_way_to_launch() {
    let mut req = LaunchRequest {
        run_policy: true,
        docker: true,
        health_url: Some("http://h".to_string()),
        cheap_verify: None,
        divergence: Some("low".to_string()),
        change_risk: None,
    };
    assert_eq!(
        launch_path(&req),
        LaunchPath::RunPolicy {
            cheap_verify: "unknown".to_string(),
            divergence: "low".to_string(),
            change_risk: "high".to_string(),
        }
    );
    req.run_policy = false;
    assert_eq!(launch_path(&req), LaunchPath::Container);
    req.docker = false;
    assert_eq!(launch_path(&req), LaunchPath::Probe { url: "http://h".to_string() });
    req.health_url = None;
    assert_eq!(launch_path(&req), LaunchPath::Wait);
}

#[test]
fn a_decision_of_the_run_policy_is_journaled_with_its_signals() {
    let d = |verdict: RunPolicyVerdict| RunPolicyDecision {
        verdict,
        reason: "why".to_string(),
        cheap_verify: "pass".to_string(),
        divergence: "low".to_string(),
        change_risk: "high".to_string(),
    };
    for (verdict, slug) in [
        (RunPolicyVerdict::VerifyOnly, "verify_only"),
        (RunPolicyVerdict::EscalateDocker, "escalate_docker"),
        (RunPolicyVerdict::EscalateShip, "escalate_ship"),
        (RunPolicyVerdict::AskHuman, "ask_human"),
    ] {
        let r = run_policy_record(&d(verdict), 5);
        assert_eq!(r.verdict, slug);
        assert_eq!((r.cheap_verify.as_str(), r.recorded_at), ("pass", 5));
    }
}

#[test]
fn a_worker_is_sandboxed_where_that_is_switched_on() {
    assert_eq!(sandbox_path(false, &Some("i".to_string())), SandboxPath::Host);
    assert_eq!(
        sandbox_path(true, &None),
        SandboxPath::Container { image: "alpine:latest".to_string() }
    );
    assert_eq!(
        sandbox_path(true, &Some("i".to_string())),
        SandboxPath::Container { image: "i".to_string() }
    );
}

#[test]
fn a_model_is_journaled_by_its_tier() {
    assert_eq!(canonical_tier_for_log("  Vendor-OPUS-4 "), "opus");
    assert_eq!(canonical_tier_for_log("Sonnet"), "sonnet");
    assert_eq!(canonical_tier_for_log("haiku"), "haiku");
    assert_eq!(canonical_tier_for_log(" GPT "), "gpt");
    assert_eq!(canonical_tier_for_log("ÄÖ"), "äö");
    assert_eq!(tier_of("x-sonnet-opus"), "sonnet");
    let r = replan_record(Directive::EscalateModel, "stuck", "OPUS", 2, 9);
    assert_eq!(r.directive, "escalate_model");
    assert_eq!(r.reached_tier, "opus");
    assert_eq!((r.replan_count, r.recorded_at), (2, 9));
    assert_eq!(replan_record(Directive::Replan, "", "", 0, 0).directive, "replan");
    assert_eq!(
        replan_record(Directive::EscalateToUser, "", "", 0, 0).directive,
        "escalate_to_user"
    );
}

#[test]
fn blank_input_is_none() {
    assert!(!has_input(" \n\t"));
    assert!(has_input(" {} "));
}

#[test]
fn the_loop_fails_when_it_stops_red() {
    assert_eq!(loop_exit(false, true), 1);
    assert_eq!(loop_exit(false, false), 0);
    assert_eq!(loop_exit(true, true), 0);
    assert_eq!(unknown_module("x"), "unknown module 'x'; use server, client, or e2e");
}

#[test]
fn the_flag_beats_the_input_beats_the_configuration() {
    let (a, b, c) = (0.9f64.to_bits(), 0.7f64.to_bits(), 0.5f64.to_bits());
    assert_eq!(effective_threshold(Some(a), Some(b), c), a);
    assert_eq!(effective_threshold(None, Some(b), c), b);
    assert_eq!(effective_threshold(None, None, c), c);
}

#[test]
fn consensus_exits_tell_what_happened() {
    assert_eq!(plan_exit(&plan(true, 3, 3, None)), 0);
    assert_eq!(plan_exit(&plan(false, 3, 3, None)), 1);
    let agreement = Agreement {
        below: true,
        percent: "0".to_string(),
        threshold_percent: "50".to_string(),
    };
    assert_eq!(vote_exit(&tally(&[], &agreement, 0)), 1);
}

#[test]
fn open_questions_are_listed_with_their_options() {
    let mut reg = Registry::default();
    let options = vec!["a".to_string(), "b".to_string()];
    let e = add_escalation(&mut reg, "r1", "t1", "Which?", &options, 1, 5);
    let lines = open_lines("r1", &reg.escalations);
    assert_eq!(lines[0], "Open escalations for run r1:");
    assert_eq!(lines[1], format!("  {}  [t1] Which? (recommend: b)", e.id));
    assert_eq!(lines[2], "        options: a | b");
    assert_eq!(lines.len(), 3);
    assert_eq!(open_lines("r1", &Vec::new()), vec!["No open escalations for run r1."]);
    assert_eq!(no_escalation("x"), "condukt: no escalation with id 'x'");
}

#[test]
fn worktrees_are_told_of_in_one_line() {
    assert_eq!(worktree_line("/wt", &Some("b".to_string())), "/wt\tb");
    assert_eq!(worktree_line("/wt", &None), "/wt\t-");
    assert_eq!(orphan_line("/wt", true), "removed orphan /wt");
    assert_eq!(orphan_line("/wt", false), "orphan (pass --remove to delete): /wt");
    assert!(undeleted_line("b").contains("branch 'b' remains"));
}

#[test]
fn an_empty_session_is_none() {
    assert_eq!(session_from(&Some(String::new())), None);
    assert_eq!(session_from(&Some("s".to_string())).as_deref(), Some("s"));
    let named = Some("n".to_string());
    assert_eq!(claim_session(&named, &Some("s".to_string())).as_deref(), Some("n"));
    assert_eq!(claim_session(&None, &Some("s".to_string())).as_deref(), Some("s"));
    assert_eq!(claim_session(&None, &Some(String::new())), None);
}

#[test]
fn a_new_configuration_holds_the_defaults() {
    let c = default_config("/wt", "main", 4);
    assert!(c.starts_with("# condukt configuration\n"));
    assert!(c.contains("worktree_base = \"/wt\"\n"));
    assert!(c.contains("default_branch = \"main\"\n"));
    assert!(c.contains("max_parallel = 4\n"));
}
