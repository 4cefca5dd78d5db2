use condukt::claim::{
    active_claims, backlog_pending, claim_files, claim_tasks, heartbeat, is_stale,
    join_execution_state, pending_rows, reap, release_files, release_run, release_tasks,
    retain_claim, run_liveness, ttl_secs, write_execution_state, Claim, ClaimOutcome, Liveness,
    Registry, RegistryRead, RunLiveness, Table, CLAIMS_LOCK_KEY, LOCK_CONTENDED_HOLDER,
};
use condukt::json::parse;
use condukt::lock::{Attempt, RunLock};
use condukt::verdict::Determination;

const TTL: i64 = 1800;

/// A registry, its lock, and what is known of the progress of its claims.
struct World {
    reg: Registry,
    lock: RunLock,
    progress: Determination<Liveness>,
}

fn covers(pattern: &str, name: &str) -> bool {
    match pattern.split_once('*') {
        Some((front, back)) => {
            name.len() >= front.len() + back.len()
                && name.starts_with(front)
                && name.ends_with(back)
                && !name[front.len()..name.len() - back.len()].contains('/')
        }
        None => pattern == name,
    }
}

/// `src/*.rs` overlaps every `.rs` file right under `src/`.
fn overlaps(a: &str, b: &str) -> bool {
    covers(a, b) || covers(b, a)
}

fn held_lock() -> RunLock {
    RunLock::acquire_at("/s/__claims__.lock", &vec![Attempt::Published])
}

fn contended_lock() -> RunLock {
    let busy = Attempt::Occupied {
        owner_alive: Some(Determination::known(true)),
        expired: true,
    };
    RunLock::acquire_at("/s/__claims__.lock", &vec![busy])
}

impl World {
    fn new() -> World {
        World {
            reg: Registry::default(),
            lock: held_lock(),
            progress: Determination::undetermined("no sample yet"),
        }
    }

    fn claim_files(
        &mut self,
        run: &str,
        session: Option<&str>,
        files: &Vec<String>,
        now: i64,
    ) -> ClaimOutcome {
        let said = self.progress.clone();
        let progress = |_: &Claim| said.clone();
        claim_files(
            &self.lock,
            &mut self.reg,
            run,
            session,
            4242,
            files,
            now,
            TTL,
            &progress,
            &|a: &str, b: &str| overlaps(a, b),
        )
    }

    fn claim_tasks(
        &mut self,
        keys: &Vec<String>,
        run: &str,
        session: Option<&str>,
        now: i64,
        title: Option<&str>,
    ) -> ClaimOutcome {
        let said = self.progress.clone();
        let progress = |_: &Claim| said.clone();
        claim_tasks(
            &self.lock,
            &mut self.reg,
            keys,
            run,
            session,
            4242,
            now,
            TTL,
            title,
            &progress,
        )
    }

    fn release_files(&mut self, run: &str, files: &Vec<String>) -> usize {
        release_files(&self.lock, &mut self.reg, run, files)
    }

    fn release_tasks(&mut self, keys: &Vec<String>) -> usize {
        release_tasks(&self.lock, &mut self.reg, keys)
    }

    fn release_run(&mut self, run: &str) -> usize {
        release_run(&self.lock, &mut self.reg, run)
    }

    fn heartbeat(&mut self, run: &str, now: i64) -> usize {
        let said = self.progress.clone();
        let progress = |_: &Claim| said.clone();
        heartbeat(&self.lock, &mut self.reg, run, now, TTL, &progress)
    }

    fn active_claims(&mut self, now: i64) -> &Registry {
        let said = self.progress.clone();
        let progress = |_: &Claim| said.clone();
        assert!(active_claims(&self.lock, &mut self.reg, now, TTL, &progress));
        &self.reg
    }

    fn run_liveness(self, run: &str, now: i64) -> RunLiveness {
        run_liveness(&RegistryRead::Read(self.reg), run, now, TTL)
    }
}

#[test]
fn run_liveness_live_for_fresh_claim() {
    let mut w = World::new();
    let now = 1_000_000;
    w.claim_files("run", Some("sess"), &files(&["a.txt"]), now);
    assert_eq!(w.run_liveness("run", now), RunLiveness::Live);
}

#[test]
fn run_liveness_dead_when_claim_stale() {
    let mut w = World::new();
    let claimed_at = 1_000_000;
    w.claim_files(
        "run",
        Some("sess"),
        &files(&["a.txt"]),
        claimed_at,
    );
    let now = claimed_at + TTL + 100;
    assert_eq!(w.run_liveness("run", now), RunLiveness::Dead);
}

fn files(v: &[&str]) -> Vec<String> {
    v.iter().map(|s| s.to_string()).collect()
}

#[test]
fn first_claim_succeeds_and_persists() {
    let mut w = World::new();
    let out = w.claim_files(
        "runA",
        Some("sessA"),
        &files(&["src/a.rs"]),
        100,
    );
    assert_eq!(out.claimed, vec!["src/a.rs".to_string()]);
    assert!(out.skipped.is_empty());
    let live = w.active_claims(100);
    assert_eq!(live.files.len(), 1);
    assert_eq!(live.files.get("src/a.rs").unwrap().run_id, "runA");
}

#[test]
fn conflicting_claim_from_other_run_is_hard_skipped() {
    let mut w = World::new();
    w.claim_files("runA", None, &files(&["src/a.rs"]), 100);
    let out = w.claim_files("runB", None, &files(&["src/a.rs"]), 101);
    assert!(out.claimed.is_empty());
    assert_eq!(out.skipped.len(), 1);
    assert_eq!(out.skipped[0].holder_run, "runA");
    let live = w.active_claims(102);
    assert_eq!(live.files.get("src/a.rs").unwrap().run_id, "runA");
}

#[test]
fn partial_batch_claims_free_files_only() {
    let mut w = World::new();
    w.claim_files("runA", None, &files(&["src/a.rs"]), 100);
    let out = w.claim_files(
        "runB",
        None,
        &files(&["src/a.rs", "src/b.rs"]),
        101,
    );
    assert_eq!(out.claimed, vec!["src/b.rs".to_string()]);
    assert_eq!(out.skipped.len(), 1);
    assert_eq!(out.skipped[0].file, "src/a.rs");
}

#[test]
fn glob_overlap_is_detected() {
    let mut w = World::new();
    w.claim_files("runA", None, &files(&["src/*.rs"]), 100);
    let out = w.claim_files("runB", None, &files(&["src/a.rs"]), 101);
    assert!(out.claimed.is_empty(), "src/a.rs overlaps src/*.rs");
    assert_eq!(out.skipped.len(), 1);
}

#[test]
fn same_run_reclaim_refreshes_heartbeat_and_keeps_claimed_at() {
    let mut w = World::new();
    w.claim_files("runA", None, &files(&["src/a.rs"]), 100);
    let out = w.claim_files("runA", None, &files(&["src/a.rs"]), 200);
    assert_eq!(out.claimed, vec!["src/a.rs".to_string()]);
    let live = w.active_claims(200);
    assert_eq!(live.files.get("src/a.rs").unwrap().claimed_at, 100);
    assert_eq!(live.files.get("src/a.rs").unwrap().heartbeat_at, 200);
}

#[test]
fn release_files_frees_the_slot() {
    let mut w = World::new();
    w.claim_files("runA", None, &files(&["src/a.rs"]), 100);
    let n = w.release_files("runA", &files(&["src/a.rs"]));
    assert_eq!(n, 1);
    let out = w.claim_files("runB", None, &files(&["src/a.rs"]), 101);
    assert_eq!(out.claimed, vec!["src/a.rs".to_string()]);
}

#[test]
fn release_run_frees_all_its_files() {
    let mut w = World::new();
    w.claim_files(
        "runA",
        None,
        &files(&["src/a.rs", "src/b.rs"]),
        100,
    );
    let n = w.release_run("runA");
    assert_eq!(n, 2);
    assert!(w.active_claims(101).files.len() == 0);
}

#[test]
fn stale_claim_with_confirmed_stalled_progress_is_reaped_and_reclaimable() {
    let mut w = World::new();
    w.reg.files.insert(
        "src/a.rs",
        Claim {
            run_id: "ghost".into(),
            session_id: Some("dead-session".into()),
            pid: 4242,
            claimed_at: 0,
            heartbeat_at: 0,
            title: None,
        },
    );
    let now = TTL + 1;
    let out = {
        w.progress = Determination::Known(Liveness::Stalled);
        w.claim_files("runB", None, &files(&["src/a.rs"]), now)
    };
    assert_eq!(out.claimed, vec!["src/a.rs".to_string()]);
    assert!(out.skipped.is_empty());
}

#[test]
fn stale_claim_but_progressing_is_not_reaped() {
    let mut w = World::new();
    w.reg.files.insert(
        "src/a.rs",
        Claim {
            run_id: "busy".into(),
            session_id: Some("live-quiet".into()),
            pid: 4242,
            claimed_at: 0,
            heartbeat_at: 0,
            title: None,
        },
    );
    let now = TTL + 1;
    let out = {
        w.progress = Determination::Known(Liveness::Progressing);
        w.claim_files("runB", None, &files(&["src/a.rs"]), now)
    };
    assert!(out.claimed.is_empty(), "progressing holder must be kept");
    assert_eq!(out.skipped.len(), 1);
    assert_eq!(out.skipped[0].holder_run, "busy");
}

#[test]
fn stale_claim_with_undetermined_progress_is_not_reaped() {
    let mut w = World::new();
    w.reg.files.insert(
        "src/a.rs",
        Claim {
            run_id: "unknown".into(),
            session_id: Some("opaque".into()),
            pid: 4242,
            claimed_at: 0,
            heartbeat_at: 0,
            title: None,
        },
    );
    let now = TTL + 1;
    let undet = Determination::undetermined("no sample yet");
    let out = {
        w.progress = undet;
        w.claim_files("runB", None, &files(&["src/a.rs"]), now)
    };
    assert!(
        out.claimed.is_empty(),
        "undetermined progress must NOT reap"
    );
    assert_eq!(out.skipped.len(), 1);
    assert_eq!(out.skipped[0].holder_run, "unknown");
}

#[test]
fn fresh_heartbeat_is_not_reaped_regardless_of_pid() {
    let mut w = World::new();
    w.reg.files.insert(
        "src/a.rs",
        Claim {
            run_id: "other".into(),
            session_id: Some("live-elsewhere".into()),
            pid: 424242,
            claimed_at: 100,
            heartbeat_at: 100,
            title: None,
        },
    );
    let out = w.claim_files("runB", None, &files(&["src/a.rs"]), 200);
    assert!(out.claimed.is_empty());
    assert_eq!(out.skipped.len(), 1);
    assert_eq!(out.skipped[0].holder_run, "other");
}

#[test]
fn heartbeat_keeps_live_claim_protected() {
    let mut w = World::new();
    w.claim_files("runA", None, &files(&["src/a.rs"]), 0);
    let ttl = TTL;
    w.heartbeat("runA", ttl);
    let out = w.claim_files("runB", None, &files(&["src/a.rs"]), ttl + 1);
    assert!(out.claimed.is_empty());
    assert_eq!(out.skipped.len(), 1);
}

#[test]
fn task_claim_succeeds_and_persists_with_title() {
    let mut w = World::new();
    let out = w.claim_tasks(&files(&["hk-1"]),
        "runA",
        Some("sessA"),
        100,
        Some("do the thing"),
    );
    assert_eq!(out.claimed, vec!["hk-1".to_string()]);
    assert!(out.skipped.is_empty());
    let live = w.active_claims(100);
    assert_eq!(live.task_claims.get("hk-1").unwrap().run_id, "runA");
    assert_eq!(
        live.task_claims.get("hk-1").unwrap().title.as_deref(),
        Some("do the thing")
    );
    assert!(live.files.len() == 0);
}

#[test]
fn same_task_held_by_another_live_run_is_skipped() {
    let mut w = World::new();
    w.claim_tasks(&files(&["hk-1"]), "runA", None, 100, None);
    let out = w.claim_tasks(&files(&["hk-1"]), "runB", None, 101, None);
    assert!(out.claimed.is_empty());
    assert_eq!(out.skipped.len(), 1);
    assert_eq!(out.skipped[0].file, "hk-1");
    assert_eq!(out.skipped[0].holder_run, "runA");
    let live = w.active_claims(102);
    assert_eq!(live.task_claims.get("hk-1").unwrap().run_id, "runA");
}

#[test]
fn stale_task_claim_with_confirmed_stalled_progress_is_reaped_and_reclaimable() {
    let mut w = World::new();
    w.reg.task_claims.insert(
        "hk-1",
        Claim {
            run_id: "ghost".into(),
            session_id: Some("dead".into()),
            pid: 4242,
            claimed_at: 0,
            heartbeat_at: 0,
            title: Some("stale task".into()),
        },
    );
    let now = TTL + 1;
    let out = {
        w.progress = Determination::Known(Liveness::Stalled);
        let out = w.claim_tasks(&files(&["hk-1"]), "runB", None, now, None);
        let live = w.active_claims(now);
        assert_eq!(live.task_claims.get("hk-1").unwrap().run_id, "runB");
        out
    };
    assert_eq!(out.claimed, vec!["hk-1".to_string()]);
    assert!(out.skipped.is_empty());
}

#[test]
fn stale_task_claim_but_progressing_is_not_reaped() {
    let mut w = World::new();
    w.reg.task_claims.insert(
        "hk-1",
        Claim {
            run_id: "busy".into(),
            session_id: Some("live".into()),
            pid: 4242,
            claimed_at: 0,
            heartbeat_at: 0,
            title: Some("still working".into()),
        },
    );
    let now = TTL + 1;
    let out = {
        w.progress = Determination::Known(Liveness::Progressing);
        w.claim_tasks(&files(&["hk-1"]), "runB", None, now, None)
    };
    assert!(
        out.claimed.is_empty(),
        "progressing task holder must be kept"
    );
    assert_eq!(out.skipped.len(), 1);
    assert_eq!(out.skipped[0].holder_run, "busy");
}

#[test]
fn release_tasks_frees_the_hashkey() {
    let mut w = World::new();
    w.claim_tasks(&files(&["hk-1"]), "runA", None, 100, None);
    let n = w.release_tasks(&files(&["hk-1"]));
    assert_eq!(n, 1);
    let out = w.claim_tasks(&files(&["hk-1"]), "runB", None, 101, None);
    assert_eq!(out.claimed, vec!["hk-1".to_string()]);
}

#[test]
fn release_run_drops_both_file_and_task_claims() {
    let mut w = World::new();
    w.claim_files("runA", None, &files(&["src/a.rs"]), 100);
    w.claim_tasks(&files(&["hk-1"]), "runA", None, 100, None);
    let n = w.release_run("runA");
    assert_eq!(n, 2, "one file + one task claim released");
    let live = w.active_claims(101);
    assert!(live.files.len() == 0);
    assert!(live.task_claims.len() == 0);
}

#[test]
fn heartbeat_refreshes_both_file_and_task_claims() {
    let mut w = World::new();
    w.claim_files("runA", None, &files(&["src/a.rs"]), 0);
    w.claim_tasks(&files(&["hk-1"]), "runA", None, 0, None);
    let n = w.heartbeat("runA", 500);
    assert_eq!(n, 2, "both the file and the task claim refreshed");
    let live = w.active_claims(500);
    assert_eq!(live.files.get("src/a.rs").unwrap().heartbeat_at, 500);
    assert_eq!(live.task_claims.get("hk-1").unwrap().heartbeat_at, 500);
}

#[test]
fn execution_join_emits_status_and_claimed_by() {
    let mut task_claims = Table::new();
    task_claims.insert(
        "hk-1",
        Claim {
            run_id: "runA".into(),
            session_id: Some("sessA".into()),
            pid: 1,
            claimed_at: 10,
            heartbeat_at: 42,
            title: Some("wire the CLI".into()),
        },
    );
    task_claims.insert(
        "hk-2",
        Claim {
            run_id: "runB".into(),
            session_id: None,
            pid: 2,
            claimed_at: 10,
            heartbeat_at: 43,
            title: Some("orphan task".into()),
        },
    );
    let pending = vec![parse(r#"{ "id": 77, "title": "wire the CLI", "status": "pending", "project": "condukt"}"#).unwrap()];
    let rows = join_execution_state(&task_claims, &pending);
    assert_eq!(rows.len(), 2);
    let r0 = &rows[0];
    assert_eq!(r0.hashkey, "hk-1");
    assert_eq!(r0.backlog_id.as_deref(), Some("77"));
    assert_eq!(r0.status.as_deref(), Some("pending"));
    assert_eq!(r0.project.as_deref(), Some("condukt"));
    assert_eq!(r0.title.as_deref(), Some("wire the CLI"));
    assert_eq!(r0.claimed_by.run_id, "runA");
    assert_eq!(r0.claimed_by.session_id.as_deref(), Some("sessA"));
    assert_eq!(r0.claimed_by.heartbeat_at, 42);
    let r1 = &rows[1];
    assert_eq!(r1.hashkey, "hk-2");
    assert!(r1.backlog_id.is_none());
    assert!(r1.status.is_none());
    assert_eq!(r1.claimed_by.run_id, "runB");
}

#[test]
fn run_liveness_dead_when_registry_absent() {
    assert_eq!(
        run_liveness(&RegistryRead::Absent, "run", 1_000_000, TTL),
        RunLiveness::Dead
    );
}

#[test]
fn run_liveness_undetermined_when_registry_unreadable() {
    assert_eq!(
        run_liveness(&RegistryRead::Unreadable, "run", 1_000_000, TTL),
        RunLiveness::Undetermined
    );
}

#[test]
fn run_liveness_undetermined_for_empty_run_id() {
    assert_eq!(
        run_liveness(&RegistryRead::Absent, "", 1_000_000, TTL),
        RunLiveness::Undetermined
    );
}

#[test]
fn write_execution_state_is_fail_soft_without_backlog() {
    let mut w = World::new();
    w.claim_tasks(&files(&["hk-1"]), "runA", Some("sessA"), 100, Some("a task"));
    let said = w.progress.clone();
    let progress = |_: &Claim| said.clone();
    let state = write_execution_state(
        &w.lock,
        &mut w.reg,
        &backlog_pending(""),
        100,
        TTL,
        &progress,
    );
    let rows = state.entries;
    assert_eq!(rows.len(), 1);
    assert_eq!(rows[0].hashkey, "hk-1");
    assert_eq!(rows[0].claimed_by.run_id, "runA");
    assert_eq!(rows[0].title.as_deref(), Some("a task"));
    assert!(state.persist);
}

#[test]
fn contended_claims_lock_makes_claim_files_hard_skip_not_double_claim() {
    let mut w = World::new();
    assert_eq!(CLAIMS_LOCK_KEY, "__claims__");
    w.lock = contended_lock();
    assert!(!w.lock.held());
    let out = w.claim_files("runB", Some("sessB"), &files(&["src/a.rs", "src/b.rs"]), 100);
    assert!(
        out.claimed.is_empty(),
        "contended claim must claim NOTHING, got: {:?}",
        out.claimed
    );
    assert_eq!(
        out.skipped.len(),
        2,
        "contended claim must report every requested file skipped"
    );
    assert!(
        out.skipped
            .iter()
            .all(|s| s.holder_run == LOCK_CONTENDED_HOLDER),
        "skips must be marked as lock-contention skips"
    );
    assert_eq!(w.reg.files.len(), 0, "a contended claim must not persist any claim");
    assert_eq!(w.release_run("runB"), 0);
    assert_eq!(w.heartbeat("runB", 1), 0);
}

#[test]
fn a_claim_of_the_clocks_end_is_not_stale() {
    let c = |at: i64| Claim {
        run_id: "r".into(),
        session_id: None,
        pid: 1,
        claimed_at: at,
        heartbeat_at: at,
        title: None,
    };
    assert!(!is_stale(&c(100), 100 + TTL, TTL));
    assert!(is_stale(&c(100), 101 + TTL, TTL));
    assert!(!is_stale(&c(i64::MAX), 0, TTL), "a heartbeat from the future is fresh");
    assert_eq!(ttl_secs(1800), 1800);
    let stalled = |_: &Claim| Determination::known(Liveness::Stalled);
    assert!(retain_claim(&c(100), 200, TTL, &stalled));
    assert!(!retain_claim(&c(100), 101 + TTL, TTL, &stalled));
}

#[test]
fn reaping_asks_about_each_claim() {
    let mut w = World::new();
    w.claim_files("dead", None, &files(&["a"]), 0);
    w.claim_files("busy", None, &files(&["b"]), 0);
    let progress = |c: &Claim| {
        if c.run_id == "dead" {
            Determination::known(Liveness::Stalled)
        } else {
            Determination::known(Liveness::Progressing)
        }
    };
    reap(&mut w.reg, TTL + 1, TTL, &progress);
    assert!(w.reg.files.get("a").is_none());
    assert_eq!(w.reg.files.get("b").unwrap().run_id, "busy");
}

#[test]
fn a_table_is_kept_in_the_order_of_its_keys() {
    let mut w = World::new();
    w.claim_tasks(&files(&["b", "a", "c"]), "r", None, 1, None);
    let rows = join_execution_state(&w.reg.task_claims, &Vec::new());
    let keys: Vec<&str> = rows.iter().map(|r| r.hashkey.as_str()).collect();
    assert_eq!(keys, vec!["a", "b", "c"]);
    assert_eq!(w.reg.task_claims.keys(), vec!["a", "b", "c"]);
    w.reg.task_claims.insert("a", w.reg.task_claims.get("c").unwrap().clone());
    assert_eq!(w.reg.task_claims.len(), 3);
}

#[test]
fn a_listing_is_a_list_or_holds_one() {
    let listed = r#"[{"id":1,"title":"x"},{"id":2,"title":"y"}]"#;
    assert_eq!(backlog_pending(listed).len(), 2);
    assert_eq!(pending_rows(parse(listed).unwrap()).len(), 2);
    assert_eq!(backlog_pending("not json").len(), 0);
}
