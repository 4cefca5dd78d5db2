use condukt::maintree::{
    common_git_dir, decide, declared_integration, git_line, git_lines, guard_lines, guard_report,
    observe, observe_integration, observe_peers, observe_staged, observe_tree_role,
    parse_backlog_lock, parse_overwatch_sessions, run_guard, sanitize_override, GitDirs,
    Integration, IntegrationEvidence, IntegrationKind, Markers, Observations, PeerSession,
    PeerSource, Presence, TreeRole,
};
use condukt::verdict::{Determination, Verdict};

fn peer(id: &str) -> PeerSession {
    PeerSession {
        session_id: id.to_string(),
        source: PeerSource::OverwatchLease,
        detail: "1 live lease(s)".to_string(),
    }
}

fn blocking() -> Observations {
    Observations {
        tree_role: Determination::known(TreeRole::Primary),
        integration: Determination::known(None),
        staged_paths: Determination::known(vec!["crates/condukt/src/main.rs".to_string()]),
        peers: Determination::known(vec![peer("peer-1")]),
    }
}

#[test]
fn primary_tree_with_a_live_peer_and_staged_files_blocks() {
    let d = decide(blocking(), None);
    assert!(d.blocks(), "expected a block, got {d:?}");
    assert!(matches!(d.verdict, Verdict::Violation(_)));
    assert_eq!(d.exit_code(), 1);
    assert!(d
        .verdict
        .reason()
        .expect("a violation carries a reason")
        .as_str()
        .contains("peer-1"));
}

#[test]
fn exclusion_committing_from_a_linked_worktree_passes() {
    let obs = Observations {
        tree_role: Determination::known(TreeRole::Linked),
        ..blocking()
    };
    let d = decide(obs, None);
    assert!(!d.blocks(), "a worktree commit must pass, got {d:?}");
    assert_eq!(d.exit_code(), 0);
}

#[test]
fn exclusion_no_other_live_session_passes() {
    let obs = Observations {
        peers: Determination::known(vec![]),
        ..blocking()
    };
    let d = decide(obs, None);
    assert!(!d.blocks(), "a solo session must pass, got {d:?}");
    assert_eq!(d.exit_code(), 0);
}

#[test]
fn exclusion_integration_commit_passes_for_every_kind() {
    for kind in [
        IntegrationKind::Merge,
        IntegrationKind::Rebase,
        IntegrationKind::CherryPick,
        IntegrationKind::Revert,
    ] {
        let obs = Observations {
            integration: Determination::known(Some(Integration {
                kind,
                evidence: IntegrationEvidence::OnDisk("MARKER"),
            })),
            ..blocking()
        };
        let d = decide(obs, None);
        assert!(
            !d.blocks(),
            "{kind:?} is integration, which §8 permits in the main tree: {d:?}"
        );
        assert_eq!(d.exit_code(), 0);
        assert!(
            d.pass_note.is_some(),
            "an integration pass must be announced, not silent"
        );
    }
}

#[test]
fn an_integration_pass_names_its_evidence() {
    for (evidence, needle) in [
        (
            IntegrationEvidence::OnDisk("MERGE_HEAD"),
            "MERGE_HEAD on disk",
        ),
        (IntegrationEvidence::HookInvocation, "pre-merge-commit"),
    ] {
        let obs = Observations {
            integration: Determination::known(Some(Integration {
                kind: IntegrationKind::Merge,
                evidence,
            })),
            ..blocking()
        };
        let note = decide(obs, None).pass_note.expect("announced");
        assert!(note.contains(needle), "{note:?} should name {needle:?}");
    }
}

#[test]
fn only_the_ordinary_pass_is_silent() {
    let quiet = Observations {
        tree_role: Determination::known(TreeRole::Linked),
        ..blocking()
    };
    assert_eq!(decide(quiet, None).pass_note, None);
    let quiet = Observations {
        peers: Determination::known(vec![]),
        ..blocking()
    };
    assert_eq!(decide(quiet, None).pass_note, None);
}

#[test]
fn the_hook_declaration_alone_does_not_make_an_integration() {
    assert_eq!(declared_integration(Some("pre-merge-commit"), None), None);
    assert_eq!(
        declared_integration(Some("pre-merge-commit"), Some("")),
        None
    );
    assert_eq!(
        declared_integration(Some("pre-merge-commit"), Some("commit")),
        None
    );
    assert_eq!(
        declared_integration(Some("pre-merge-commit"), Some("commit (amend)")),
        None
    );
}

#[test]
fn a_corroborated_merge_declaration_is_an_integration() {
    for action in ["merge side", "merge", "pull --no-rebase origin main"] {
        assert_eq!(
            declared_integration(Some("pre-merge-commit"), Some(action)),
            Some(Integration {
                kind: IntegrationKind::Merge,
                evidence: IntegrationEvidence::HookInvocation,
            }),
            "{action:?} should corroborate the declaration"
        );
    }
}

#[test]
fn an_unknown_or_absent_hook_declaration_is_not_honored() {
    assert_eq!(declared_integration(None, Some("merge side")), None);
    assert_eq!(
        declared_integration(Some("pre-commit"), Some("merge side")),
        None,
        "only the merge hook declares; pre-commit runs for ordinary commits too"
    );
    assert_eq!(
        declared_integration(Some("post-commit"), Some("merge side")),
        None
    );
}

#[test]
fn exclusion_nothing_staged_passes() {
    let obs = Observations {
        staged_paths: Determination::known(vec![]),
        ..blocking()
    };
    assert!(!decide(obs, None).blocks());
}

#[test]
fn every_undetermined_input_blocks_with_exit_2() {
    let cases: Vec<(&str, Observations)> = vec![
        (
            "tree role",
            Observations {
                tree_role: Determination::undetermined("git failed"),
                ..blocking()
            },
        ),
        (
            "integration",
            Observations {
                integration: Determination::undetermined("cannot stat MERGE_HEAD"),
                ..blocking()
            },
        ),
        (
            "staged",
            Observations {
                staged_paths: Determination::undetermined("git diff failed"),
                ..blocking()
            },
        ),
        (
            "peers",
            Observations {
                peers: Determination::undetermined("overwatch is not installed"),
                ..blocking()
            },
        ),
    ];
    for (label, obs) in cases {
        let d = decide(obs, None);
        assert!(d.blocks(), "undetermined {label} must block, got {d:?}");
        assert!(matches!(d.verdict, Verdict::Undetermined(_)));
        assert_eq!(d.exit_code(), 2, "undetermined {label} exits 2");
    }
}

#[test]
fn override_needs_a_non_blank_reason() {
    for blank in ["", "   ", "\t\n "] {
        let d = decide(blocking(), Some(blank));
        assert!(d.blocks(), "{blank:?} must not unlock the guard");
        assert_eq!(d.override_reason, None);
    }
}

#[test]
fn override_with_a_reason_exits_zero_without_forging_a_clean() {
    let d = decide(blocking(), Some("  integrating a hotfix by hand  "));
    assert!(!d.blocks());
    assert_eq!(d.exit_code(), 0);
    assert_eq!(
        d.override_reason.as_deref(),
        Some("integrating a hotfix by hand")
    );
    assert!(
        matches!(d.verdict, Verdict::Violation(_)),
        "the finding must survive the bypass, not be rewritten to Clean"
    );
}

#[test]
fn override_also_unlocks_an_undetermined_verdict() {
    let obs = Observations {
        peers: Determination::undetermined("overwatch absent"),
        ..blocking()
    };
    let d = decide(obs, Some("overwatch is being rebuilt"));
    assert!(!d.blocks());
    assert!(matches!(d.verdict, Verdict::Undetermined(_)));
}

#[test]
fn override_is_not_recorded_when_the_gate_already_passes() {
    let obs = Observations {
        tree_role: Determination::known(TreeRole::Linked),
        ..blocking()
    };
    let d = decide(obs, Some("not needed"));
    assert_eq!(d.override_reason, None, "nothing was bypassed");
}

#[test]
fn overwatch_absent_sessions_key_is_zero_sessions() {
    let d = parse_overwatch_sessions(r#"{"backlog":{"pending":1}}"#, None);
    assert_eq!(d, Determination::Known(vec![]));
}

#[test]
fn overwatch_live_roster_yields_a_peer_and_self_is_filtered() {
    let json = r#"{"sessions":[
        {"session_id":"me","leases":[],"live_count":1},
        {"session_id":"other","leases":[],"live_count":2},
        {"session_id":"idle","leases":[],"live_count":0}
    ]}"#;
    let d = parse_overwatch_sessions(json, Some("me"));
    let peers = match d {
        Determination::Known(p) => p,
        other => panic!("expected Known, got {other:?}"),
    };
    assert_eq!(peers.len(), 1, "self and idle sessions are not peers");
    assert_eq!(peers[0].session_id, "other");
}

#[test]
fn overwatch_unparseable_or_misshapen_output_is_undetermined() {
    for bad in [
        "",
        "not json",
        "[]",
        r#"{"sessions":"nope"}"#,
        r#"{"sessions":[{"live_count":1}]}"#,
        r#"{"sessions":[{"session_id":"x"}]}"#,
    ] {
        assert!(
            matches!(
                parse_overwatch_sessions(bad, None),
                Determination::Undetermined(_)
            ),
            "{bad:?} must be undetermined, never an empty roster"
        );
    }
}

#[test]
fn backlog_lock_none_and_stale_are_not_peers() {
    assert_eq!(
        parse_backlog_lock("none\n", None),
        Determination::Known(None)
    );
    let stale = r#"{"session_id":"ghost","pid":1,"stale":true}"#;
    assert_eq!(parse_backlog_lock(stale, None), Determination::Known(None));
}

#[test]
fn backlog_lock_active_other_session_is_a_peer_and_self_is_not() {
    let held = r#"{"session_id":"other","pid":4242,"project":"/repo"}"#;
    match parse_backlog_lock(held, Some("me")) {
        Determination::Known(Some(p)) => {
            assert_eq!(p.session_id, "other");
            assert_eq!(p.source, PeerSource::BacklogLock);
            assert_eq!(p.detail, "pid 4242");
        }
        other => panic!("expected a peer, got {other:?}"),
    }
    assert_eq!(
        parse_backlog_lock(held, Some("other")),
        Determination::Known(None),
        "my own lock is not a peer"
    );
}

#[test]
fn backlog_lock_garbage_is_undetermined() {
    for bad in ["", "held", r#"{"pid":1}"#] {
        assert!(
            matches!(
                parse_backlog_lock(bad, None),
                Determination::Undetermined(_)
            ),
            "{bad:?} must be undetermined"
        );
    }
}

#[test]
fn a_missing_self_session_id_makes_every_live_session_a_peer() {
    let json = r#"{"sessions":[{"session_id":"me","leases":[],"live_count":1}]}"#;
    match parse_overwatch_sessions(json, None) {
        Determination::Known(p) => assert_eq!(p.len(), 1),
        other => panic!("expected Known, got {other:?}"),
    }
}

fn no_markers() -> Markers {
    Markers {
        merge_head: Determination::known(false),
        cherry_pick_head: Determination::known(false),
        revert_head: Determination::known(false),
        rebase_merge: Presence::Absent,
        rebase_apply: Presence::Absent,
    }
}

fn git_dir() -> Determination<String> {
    Determination::known("/repo/.git".to_string())
}

fn on_disk(kind: IntegrationKind, marker: &'static str) -> Determination<Option<Integration>> {
    Determination::Known(Some(Integration {
        kind,
        evidence: IntegrationEvidence::OnDisk(marker),
    }))
}

fn dirs(own: &str, common: &str) -> GitDirs {
    GitDirs {
        own: Determination::known(own.to_string()),
        common: Determination::known(common.to_string()),
        own_resolved: Ok(own.to_string()),
        common_path: common.to_string(),
        common_resolved: Ok(common.to_string()),
    }
}

#[test]
fn each_marker_is_an_integration_of_its_kind() {
    let merge = Markers { merge_head: Determination::known(true), ..no_markers() };
    assert_eq!(
        observe_integration(None, None, &git_dir(), &merge),
        on_disk(IntegrationKind::Merge, "MERGE_HEAD")
    );
    let pick = Markers { cherry_pick_head: Determination::known(true), ..no_markers() };
    assert_eq!(
        observe_integration(None, None, &git_dir(), &pick),
        on_disk(IntegrationKind::CherryPick, "CHERRY_PICK_HEAD")
    );
    let revert = Markers { revert_head: Determination::known(true), ..no_markers() };
    assert_eq!(
        observe_integration(None, None, &git_dir(), &revert),
        on_disk(IntegrationKind::Revert, "REVERT_HEAD")
    );
    let rebase = Markers { rebase_merge: Presence::Present, ..no_markers() };
    assert_eq!(
        observe_integration(None, None, &git_dir(), &rebase),
        on_disk(IntegrationKind::Rebase, "rebase-merge")
    );
    let apply = Markers { rebase_apply: Presence::Present, ..no_markers() };
    assert_eq!(
        observe_integration(None, None, &git_dir(), &apply),
        on_disk(IntegrationKind::Rebase, "rebase-apply")
    );
    assert_eq!(
        observe_integration(None, None, &git_dir(), &no_markers()),
        Determination::Known(None)
    );
}

#[test]
fn a_marker_that_cannot_be_looked_for_leaves_the_question_open() {
    let unread = Markers {
        merge_head: Determination::undetermined("cannot read"),
        ..no_markers()
    };
    assert!(matches!(
        observe_integration(None, None, &git_dir(), &unread),
        Determination::Undetermined(_)
    ));
    let failed = Markers { rebase_merge: Presence::Failed("denied".to_string()), ..no_markers() };
    assert!(matches!(
        observe_integration(None, None, &git_dir(), &failed),
        Determination::Undetermined(_)
    ));
    let nowhere = Determination::undetermined("no git directory");
    assert!(matches!(
        observe_integration(None, None, &nowhere, &no_markers()),
        Determination::Undetermined(_)
    ));
}

#[test]
fn a_tree_of_its_own_is_linked() {
    assert_eq!(
        observe_tree_role(&dirs("/repo/.git", "/repo/.git")),
        Determination::Known(TreeRole::Primary)
    );
    assert_eq!(
        observe_tree_role(&dirs("/repo/.git/worktrees/a", "/repo/.git")),
        Determination::Known(TreeRole::Linked)
    );
    let lost = GitDirs { own_resolved: Err("gone".to_string()), ..dirs("/a", "/b") };
    assert!(matches!(observe_tree_role(&lost), Determination::Undetermined(_)));
    let silent = GitDirs { own: Determination::undetermined("git failed"), ..dirs("/a", "/b") };
    assert!(matches!(observe_tree_role(&silent), Determination::Undetermined(_)));
}

#[test]
fn a_relative_common_directory_lies_in_the_repository() {
    assert_eq!(common_git_dir("/repo", ".git"), "/repo/.git");
    assert_eq!(common_git_dir("/repo", "/elsewhere/.git"), "/elsewhere/.git");
}

#[test]
fn lines_of_git_are_trimmed_and_never_blank() {
    assert_eq!(git_lines(" a \n\n  b\n"), vec!["a".to_string(), "b".to_string()]);
    assert_eq!(git_line("  /repo \n"), "/repo");
}

#[test]
fn a_linked_tree_needs_nothing_else_to_be_seen() {
    let obs = observe(
        Determination::known(TreeRole::Linked),
        Determination::undetermined("not looked"),
        observe_staged(Determination::undetermined("not looked")),
        Determination::undetermined("not looked"),
    );
    let d = decide(obs, None);
    assert_eq!(d.verdict, Verdict::Clean);
}

#[test]
fn both_tools_report_peers() {
    let overwatch = Determination::known(
        r#"{"sessions":[{"session_id":"a","live_count":3}]}"#.to_string(),
    );
    let backlog =
        Determination::known(r#"{"session_id":"b","pid":9,"project":"/repo"}"#.to_string());
    match observe_peers(&overwatch, &backlog, Some("me")) {
        Determination::Known(peers) => {
            assert_eq!(peers.len(), 2);
            assert_eq!(peers[0].session_id, "a");
            assert_eq!(peers[0].detail, "3 live lease(s)");
            assert_eq!(peers[0].source.label(), "overwatch lease");
            assert_eq!(peers[1].session_id, "b");
            assert_eq!(peers[1].source.label(), "backlog lock");
        }
        other => panic!("expected Known, got {other:?}"),
    }
    let unasked = Determination::undetermined("backlog is not installed");
    assert!(matches!(
        observe_peers(&overwatch, &unasked, None),
        Determination::Undetermined(_)
    ));
}

#[test]
fn a_reason_to_pass_by_is_trimmed() {
    assert_eq!(sanitize_override(Some("  why \n")).as_deref(), Some("why"));
    assert_eq!(sanitize_override(Some(" \t")), None);
    assert_eq!(sanitize_override(None), None);
}

#[test]
fn the_guard_reports_what_it_decided() {
    let d = decide(blocking(), None);
    let report = guard_report(&d);
    assert_eq!(report.verdict, "violation");
    assert!(report.blocks);
    assert_eq!(report.exit_code, 1);
    assert!(report.reason.is_some());
    assert_eq!(guard_lines(&d).len(), 1);

    let root = Determination::known("/repo".to_string());
    let run = run_guard(&root, blocking(), Some("hotfix"), true);
    assert_eq!(run.exit_code, 0);
    assert!(run.lines.is_empty());
    let report = run.report.expect("asked for");
    assert_eq!(report.override_reason.as_deref(), Some("hotfix"));
    assert!(!report.blocks);

    let lost = Determination::undetermined("not a repository");
    let run = run_guard(&lost, blocking(), None, true);
    assert_eq!(run.exit_code, 2);
    assert_eq!(
        run.lines,
        vec![
            "main-tree-guard: UNDETERMINED — cannot resolve the working tree root; this blocks."
                .to_string()
        ]
    );
}
