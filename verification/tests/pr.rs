use condukt::pr::{
    current_branch, final_outcome, parse_pr_url, poll_line, resolve_body, run_gh_create,
    should_create, should_merge, stderr_tail, CiVerdict, GhRun, PrOutcome,
};

fn finished(exit_ok: bool, stdout: &str, stderr: &str) -> GhRun {
    GhRun::Finished { exit_ok, stdout: stdout.to_string(), stderr: stderr.to_string() }
}

#[test]
fn only_green_checks_are_merged_and_only_when_asked() {
    assert!(should_merge(&CiVerdict::Merge, true));
    assert!(!should_merge(&CiVerdict::Merge, false));
    for other in [
        CiVerdict::Wait,
        CiVerdict::Reenter,
        CiVerdict::DegradedLocalOnly { reason: "x".to_string() },
    ] {
        assert!(!should_merge(&other, true));
    }
}

#[test]
fn a_pull_request_is_told_of_in_one_line() {
    let say = |v: CiVerdict, execute: bool, merged: Result<(), String>| {
        poll_line(&v, execute, "12", "feature", "main", &merged)
    };
    assert_eq!(say(CiVerdict::Merge, true, Ok(())), "CI green: merged 'feature' into 'main'.");
    assert_eq!(
        say(CiVerdict::Merge, true, Err("conflict".to_string())),
        "CI green but merge of 'feature' into 'main' failed; left work as local commits \
         (fail-soft): conflict"
    );
    assert_eq!(
        say(CiVerdict::Merge, false, Ok(())),
        "CI green: would merge 'feature' into 'main' (dry-run; pass --execute to merge)."
    );
    assert_eq!(
        say(CiVerdict::Wait, true, Ok(())),
        "CI still running for '12': waiting (no merge)."
    );
    assert_eq!(
        say(CiVerdict::Reenter, true, Ok(())),
        "CI failed for '12': re-enter the worker to fix it (no merge)."
    );
    assert_eq!(
        say(CiVerdict::DegradedLocalOnly { reason: "no gh".to_string() }, true, Ok(())),
        "CI status unavailable for '12': no gh; left work as local commits (no merge)."
    );
}

#[test]
fn the_last_address_is_that_of_the_pull_request() {
    assert_eq!(
        parse_pr_url("Creating...\nhttps://a/1\n  https://a/2  \ndone\n"),
        "https://a/2"
    );
    assert_eq!(parse_pr_url("  nothing here \n"), "nothing here");
}

#[test]
fn a_failed_creation_leaves_local_commits() {
    assert_eq!(
        run_gh_create(&finished(true, "https://a/1\n", "")),
        PrOutcome::Created { url: "https://a/1".to_string() }
    );
    assert_eq!(
        run_gh_create(&finished(false, "", "  denied \n")),
        PrOutcome::DegradedLocalOnly {
            reason: "gh pr create failed; left work as local commits: denied".to_string()
        }
    );
    assert_eq!(
        run_gh_create(&GhRun::NotStarted { error: "gone".to_string() }),
        PrOutcome::DegradedLocalOnly {
            reason: "gh pr create could not be spawned; left work as local commits: gone"
                .to_string()
        }
    );
}

#[test]
fn nothing_is_opened_unless_prepared_and_asked_for() {
    let prepared = || PrOutcome::Prepared { args: vec!["pr".to_string()] };
    assert!(should_create(&prepared(), true));
    assert!(!should_create(&prepared(), false));
    let run = finished(true, "https://a/1", "");
    assert_eq!(final_outcome(prepared(), false, &run), prepared());
    assert_eq!(
        final_outcome(prepared(), true, &run),
        PrOutcome::Created { url: "https://a/1".to_string() }
    );
    let down = || PrOutcome::DegradedLocalOnly { reason: "no gh".to_string() };
    assert_eq!(final_outcome(down(), true, &run), down());
}

#[test]
fn the_end_of_an_error_is_short() {
    assert_eq!(stderr_tail("  short \n", 200), "short");
    assert_eq!(stderr_tail(&"x".repeat(300), 200).len(), 200);
    assert_eq!(stderr_tail(&"é".repeat(10), 5), "ééééé");
    assert_eq!(stderr_tail("ééé", 2), "éé");
    assert_eq!(stderr_tail(" abcé ", 2), "cé");
}

#[test]
fn a_body_is_given_or_read_or_empty() {
    assert_eq!(resolve_body(Some("a".to_string()), Some("b".to_string())), "a");
    assert_eq!(resolve_body(None, Some("b".to_string())), "b");
    assert_eq!(resolve_body(None, None), "");
    assert_eq!(current_branch(Some((true, "main\n"))), "main");
    assert_eq!(current_branch(Some((false, "main\n"))), "");
    assert_eq!(current_branch(None), "");
}
