use condukt::model::{
    decomposition_files, task_files, Batch, Class, Decomposition, HookInput, Schedule, Task,
};

fn task(id: &str, files: &[&str]) -> Task {
    Task {
        id: id.to_string(),
        touched_files: files.iter().map(|f| f.to_string()).collect(),
        ..Default::default()
    }
}

fn plan() -> Decomposition {
    Decomposition {
        goal: "g".to_string(),
        tasks: vec![task("a", &["x", "y"]), task("b", &["y", "z"]), task("a", &["late"])],
    }
}

#[test]
fn requires_fp_oracle_only_for_fix_or_feature() {
    let fix = Task {
        kind: Some("fix".to_string()),
        ..Default::default()
    };
    assert!(fix.requires_fp_oracle());

    let feature = Task {
        kind: Some("FEATURE".to_string()),
        ..Default::default()
    };
    assert!(feature.requires_fp_oracle());

    let chore = Task {
        kind: Some("chore".to_string()),
        ..Default::default()
    };
    assert!(!chore.requires_fp_oracle());

    let none = Task {
        kind: None,
        ..Default::default()
    };
    assert!(!none.requires_fp_oracle());
}

#[test]
fn the_first_task_of_a_name_is_found() {
    assert_eq!(plan().find("a"), Some(0));
    assert_eq!(plan().find("b"), Some(1));
    assert_eq!(plan().find("c"), None);
}

#[test]
fn every_file_of_a_plan_is_listed_once() {
    let mut listed = decomposition_files(Some(&plan()));
    listed.sort();
    assert_eq!(listed, vec!["late", "x", "y", "z"]);
    assert!(decomposition_files(None).is_empty());
}

#[test]
fn the_files_of_a_task_are_those_of_the_plan() {
    assert_eq!(task_files(Some(&plan()), "b"), vec!["y", "z"]);
    assert!(task_files(Some(&plan()), "c").is_empty());
    assert!(task_files(None, "a").is_empty());
}

#[test]
fn what_is_not_said_is_left_empty() {
    let t = Task::default();
    assert_eq!(t.class, Class::Parallel);
    assert!(t.deps.is_empty() && t.checks.is_empty() && t.expected_trajectory.is_none());
    let s = Schedule::default();
    assert!(s.batches.is_empty());
    let batch = Batch { parallel: vec!["a".to_string()] };
    assert_eq!(batch.parallel.len(), 1);
    let input = HookInput::default();
    assert!(input.cwd.is_none() && input.source.is_none());
}
