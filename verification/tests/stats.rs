use condukt::stats::{
    by_frequency, complete_count, count_line, header_lines, stats_line, status_totals,
    summary_line, RunStats, StatusCount,
};

fn count(status: &str, n: usize) -> StatusCount {
    StatusCount { status: status.to_string(), count: n }
}

fn run(id: &str, is_complete: bool, counts: Vec<StatusCount>) -> RunStats {
    RunStats {
        run_id: id.to_string(),
        goal: "a goal that is longer than thirty characters".to_string(),
        verified: 1,
        total: 12,
        is_complete,
        status_counts: counts,
    }
}

#[test]
fn the_summary_gives_whole_percents() {
    assert_eq!(summary_line(2, 3), "condukt stats: 2/3 complete (66%)\n");
    assert_eq!(summary_line(0, 0), "condukt stats: 0/0 complete (0%)\n");
    let runs = vec![run("a", true, Vec::new()), run("b", false, Vec::new())];
    assert_eq!(complete_count(&runs), 1);
}

#[test]
fn the_table_is_in_columns() {
    let head = header_lines();
    assert_eq!(head[0], format!("{:<32}  {:>6}  {:>6}  {}", "run_id", "done", "total", "goal"));
    assert_eq!(head[1], "-".repeat(72));
    let goal: String = "a goal that is longer than thirty characters".chars().take(30).collect();
    let goal = format!("{goal}…");
    assert_eq!(
        stats_line(&run("r1", true, Vec::new())),
        format!("✓ {:<30}  {:>6}  {:>6}  {}", "r1", 1, 12, goal)
    );
    assert_eq!(
        stats_line(&run("r1", false, Vec::new())),
        format!("  {:<30}  {:>6}  {:>6}  {}", "r1", 1, 12, goal)
    );
}

#[test]
fn totals_add_up_over_the_runs() {
    let runs = vec![
        run("a", false, vec![count("done", 2), count("failed", 1)]),
        run("b", false, vec![count("failed", 3)]),
    ];
    let ranked = by_frequency(status_totals(&runs));
    assert_eq!(ranked, vec![count("failed", 4), count("done", 2)]);
    assert_eq!(count_line(&ranked[0]), "  failed: 4");
}
