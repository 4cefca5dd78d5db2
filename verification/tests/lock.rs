use condukt::lock::{
    acquire_repo_primary, acquire_step, lock_file_name, lock_path_in_project, repo_primary_path,
    Attempt, RunLock, Step, REPO_PRIMARY_LOCK_KEY,
};
use condukt::verdict::Determination;

fn occupied(owner_alive: Option<Determination<bool>>, expired: bool) -> Attempt {
    Attempt::Occupied { owner_alive, expired }
}

fn alive() -> Option<Determination<bool>> {
    Some(Determination::known(true))
}

fn key_of(root: &str) -> String {
    format!("key-of-{}", root.replace('/', "_"))
}

fn root() -> Determination<String> {
    Determination::known("/repo".to_string())
}

#[test]
fn held_reflects_acquisition_state() {
    let g = RunLock::acquire_at("/s/run.lock", &vec![Attempt::Published]);
    assert!(g.held(), "a freshly-published lock must report held()");
}

#[test]
fn acquire_or_skip_hard_skips_while_first_is_held() {
    let mut writes = 0;
    let holder = RunLock::acquire_or_skip("/s/run.lock", &vec![Attempt::Published]);
    assert!(holder.is_some(), "first acquire_or_skip must be HELD");
    let contended = RunLock::acquire_or_skip(
        "/s/run.lock",
        &vec![occupied(alive(), false), occupied(alive(), true)],
    );
    assert!(
        contended.is_none(),
        "contended acquire_or_skip must hard-skip (None), not proceed unlocked"
    );
    for lock in [holder, contended] {
        if let Some(g) = lock {
            assert!(g.held());
            writes += 1;
        }
    }
    assert_eq!(writes, 1);
}

#[test]
fn acquire_repo_primary_is_held_and_repo_scoped() {
    assert_eq!(REPO_PRIMARY_LOCK_KEY, "__repo_primary__");
    assert_eq!(lock_file_name(REPO_PRIMARY_LOCK_KEY), "__repo_primary__.lock");
    assert_eq!(repo_primary_path("/s", "/repo", &key_of), "/s/key-of-_repo/__repo_primary__.lock");
    for cwd in ["/repo", "/repo/src", "/worktrees/linked"] {
        let guard =
            acquire_repo_primary("/s", cwd, &root(), &key_of, &vec![Attempt::Published])
                .expect("repo-primary lock must be acquirable");
        assert!(guard.held(), "repo-primary lock must be genuinely held");
        assert_eq!(
            format!("{guard:?}"),
            "RunLock { path: Some(\"/s/key-of-_repo/__repo_primary__.lock\") }",
            "every checkout of the repository contends one file"
        );
    }
}

#[test]
fn lock_files_differ_by_project_and_by_run() {
    assert_eq!(lock_path_in_project("/s", "p1", "r1"), "/s/p1/r1.lock");
    assert_eq!(lock_path_in_project("/s/", "p1", "r1"), "/s/p1/r1.lock");
    let files = [
        lock_path_in_project("/s", "p1", "r1"),
        lock_path_in_project("/s", "p1", "r2"),
        lock_path_in_project("/s", "p2", "r1"),
        lock_path_in_project("/s", "p1", REPO_PRIMARY_LOCK_KEY),
    ];
    for (i, one) in files.iter().enumerate() {
        assert!(files.iter().skip(i + 1).all(|other| one != other));
    }
}

#[test]
fn acquire_repo_primary_refuses_when_it_cannot_acquire() {
    for attempts in [
        vec![],
        vec![Attempt::Failed],
        vec![occupied(None, true)],
        vec![occupied(alive(), false), occupied(alive(), true)],
    ] {
        let msg = match acquire_repo_primary("/s", "/repo", &root(), &key_of, &attempts) {
            Ok(_) => panic!("an unacquirable repo-primary lock must be Err, not an unheld guard"),
            Err(e) => e,
        };
        assert!(
            msg.contains("repo-primary lock") && msg.contains("refusing"),
            "the error must say the lock could not be taken and that we refuse; got: {msg}"
        );
    }
}

#[test]
fn acquire_repo_primary_refuses_when_the_main_worktree_root_is_undetermined() {
    let nowhere = Determination::undetermined("main-worktree-root: gitfile-unparseable");
    let msg = match acquire_repo_primary("/s", "/repo", &nowhere, &key_of, &vec![Attempt::Published]) {
        Ok(_) => panic!("an UNDETERMINED main worktree root must be `Err`"),
        Err(e) => e,
    };
    assert!(
        msg.contains("main worktree root") && msg.contains("refusing"),
        "the error must name the unresolved main worktree root and say we refuse; got: {msg}"
    );
    assert!(msg.contains("gitfile-unparseable"));
}

#[test]
fn only_the_lock_of_a_dead_owner_is_reaped() {
    let dead = occupied(Some(Determination::known(false)), true);
    assert_eq!(acquire_step(&dead), Step::Reap);
    assert_eq!(acquire_step(&occupied(alive(), false)), Step::Wait);
    assert_eq!(acquire_step(&occupied(alive(), true)), Step::GiveUp);
    let open = Some(Determination::undetermined("ps failed"));
    assert_eq!(acquire_step(&occupied(open, false)), Step::Wait);
    assert_eq!(acquire_step(&occupied(None, true)), Step::GiveUp);
    assert_eq!(acquire_step(&Attempt::Failed), Step::GiveUp);
    let after = RunLock::acquire_at("/s/run.lock", &vec![dead, Attempt::Published]);
    assert!(after.held());
}
