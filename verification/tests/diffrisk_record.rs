use condukt::diffrisk_record::{
    diff_attempts, record_post_execution_diff_risk, repo_sensitive_globs, worktree_diff,
    DIFFRISK_RULE_ID,
};
use condukt::gate_exec::Risk;

#[test]
fn worktree_diff_none_when_worktree_missing() {
    let answered = vec![Some("diff --git a/x b/x".to_string())];
    assert!(worktree_diff(false, &answered).is_none());
    assert!(worktree_diff(false, &Vec::new()).is_none());
}

#[test]
fn the_first_answer_gives_the_diff() {
    let answers = vec![None, Some("of main".to_string()), Some("of HEAD".to_string())];
    assert_eq!(worktree_diff(true, &answers).as_deref(), Some("of main"));
    assert_eq!(worktree_diff(true, &vec![None, None]), None);
    assert_eq!(worktree_diff(true, &vec![Some(" \n".to_string())]), None);
    assert_eq!(diff_attempts("main"), vec!["main...HEAD", "main", "HEAD"]);
}

#[test]
fn the_plugin_surface_is_sensitive() {
    assert_eq!(
        repo_sensitive_globs("helper"),
        vec![
            "**/hooks/**",
            "**/.helper-plugin/**",
            "**/skills/**",
            "**/agents/**",
            "**/HELPER.md",
        ]
    );
}

#[test]
fn only_a_risky_diff_is_recorded() {
    let paths = vec!["hooks/x".to_string()];
    let by_diff = |p: &Vec<String>, d: &str, globs: &Vec<String>| {
        assert_eq!(globs, &repo_sensitive_globs("helper"));
        match (p.len(), d) {
            (1, "+pub fn x()") => Risk::High,
            (_, "+x") => Risk::Medium,
            _ => Risk::Low,
        }
    };
    let record = |worktree: Option<&str>, diff: Option<&str>| {
        record_post_execution_diff_risk(worktree, diff, &paths, "helper", &by_diff, "r1", "t1")
    };
    let v = record(Some("/wt"), Some("+pub fn x()")).expect("a risky diff");
    assert_eq!(v.rule_id, DIFFRISK_RULE_ID);
    assert_eq!(v.task_key, "r1/t1");
    assert_eq!(
        v.detail,
        "post-execution diff-risk: public-API change on a sensitive path (task 't1', run 'r1')"
    );
    assert_eq!(record(Some("/wt"), Some("+x")), None);
    assert_eq!(record(Some("/wt"), Some("+y")), None);
    assert_eq!(record(None, Some("+pub fn x()")), None);
    assert_eq!(record(Some("/wt"), None), None);
}
