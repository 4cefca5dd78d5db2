use condukt::escalate::{
    add_escalation, derive_id, fnv1a32, get_escalation, list_escalations, resolve_escalation,
    Registry,
};

fn opts(v: &[&str]) -> Vec<String> {
    v.iter().map(|s| s.to_string()).collect()
}

#[test]
fn add_persists_and_is_retrievable() {
    let mut reg = Registry::default();
    let rec = add_escalation(
        &mut reg,
        "runA",
        "t1",
        "Which approach?",
        &opts(&["a", "b"]),
        0,
        1234,
    );
    assert!(!rec.id.is_empty());
    assert_eq!(rec.run, "runA");
    assert_eq!(rec.task, "t1");
    assert_eq!(rec.question, "Which approach?");
    assert_eq!(rec.options, opts(&["a", "b"]));
    assert_eq!(rec.recommended, 0);
    assert_eq!(rec.created_at, 1234);
    assert!(!rec.resolved);
    assert!(rec.chosen.is_none());

    let got = get_escalation(&reg, &rec.id).unwrap();
    assert_eq!(got, rec);
}

#[test]
fn list_shows_only_unresolved_for_the_run() {
    let mut reg = Registry::default();
    let a = add_escalation(&mut reg, "runA", "t1", "Q1", &opts(&["x", "y"]), 0, 1);
    let _b = add_escalation(&mut reg, "runA", "t2", "Q2", &opts(&["x", "y"]), 1, 2);
    let _c = add_escalation(&mut reg, "runB", "t9", "Q9", &opts(&["x"]), 0, 3);

    let open = list_escalations(&reg, "runA");
    assert_eq!(open.len(), 2, "two open for runA");

    resolve_escalation(&mut reg, &a.id, "x");
    let open = list_escalations(&reg, "runA");
    assert_eq!(open.len(), 1);
    assert_eq!(open[0].task, "t2");
}

#[test]
fn resolve_stores_choice_and_record_remains() {
    let mut reg = Registry::default();
    let rec = add_escalation(&mut reg, "runA", "t1", "Q", &opts(&["a", "b"]), 0, 10);

    let updated = resolve_escalation(&mut reg, &rec.id, "b").unwrap();
    assert!(updated.resolved);
    assert_eq!(updated.chosen.as_deref(), Some("b"));

    assert!(list_escalations(&reg, "runA").is_empty());
    let got = get_escalation(&reg, &rec.id).unwrap();
    assert!(got.resolved);
    assert_eq!(got.chosen.as_deref(), Some("b"));
}

#[test]
fn resolve_unknown_id_is_a_soft_noop() {
    let mut reg = Registry::default();
    add_escalation(&mut reg, "runA", "t1", "Q", &opts(&["a"]), 0, 1);
    let got = resolve_escalation(&mut reg, "esc-doesnotexist", "a");
    assert!(got.is_none());
    assert_eq!(list_escalations(&reg, "runA").len(), 1);
}

#[test]
fn missing_store_lists_empty() {
    let reg = Registry::default();
    assert!(list_escalations(&reg, "runA").is_empty());
    assert!(get_escalation(&reg, "whatever").is_none());
}

#[test]
fn id_is_deterministic_and_not_time_dependent() {
    let id1 = derive_id("runA", "t1", "Q", 0);
    let id2 = derive_id("runA", "t1", "Q", 0);
    assert_eq!(id1, id2);
    assert_ne!(
        derive_id("runA", "t1", "Q", 0),
        derive_id("runA", "t1", "Q", 1)
    );
}

#[test]
fn add_dedups_identical_open_escalation() {
    let mut reg = Registry::default();
    let first = add_escalation(
        &mut reg,
        "runA",
        "t1",
        "Which approach?",
        &opts(&["a", "b"]),
        0,
        1,
    );
    let second = add_escalation(
        &mut reg,
        "runA",
        "t1",
        "Which approach?",
        &opts(&["a", "b"]),
        0,
        2,
    );
    assert_eq!(first.id, second.id);

    assert_eq!(reg.escalations.len(), 1, "must not duplicate an open ask");
}

#[test]
fn add_creates_new_open_record_after_resolve() {
    let mut reg = Registry::default();
    let first =
        add_escalation(&mut reg, "runA", "t1", "Q", &opts(&["a", "b"]), 0, 1);
    resolve_escalation(&mut reg, &first.id, "a");

    let second =
        add_escalation(&mut reg, "runA", "t1", "Q", &opts(&["a", "b"]), 0, 2);
    assert_ne!(first.id, second.id);
    assert!(!second.resolved);

    assert_eq!(reg.escalations.len(), 2, "resolved + new open");

    let open = list_escalations(&reg, "runA");
    assert_eq!(open.len(), 1);
    assert_eq!(open[0].id, second.id);
}

#[test]
fn the_hash_of_a_name_is_fnv() {
    assert_eq!(fnv1a32(""), 0x811c9dc5);
    assert_eq!(fnv1a32("a"), 0xe40c292c);
    assert_eq!(fnv1a32("foobar"), 0xbf9cf968);
    assert!(derive_id("r", "t", "q", 0).starts_with("esc-"));
}

#[test]
fn an_answer_leaves_the_other_questions_alone() {
    let mut reg = Registry::default();
    let a = add_escalation(&mut reg, "r", "t1", "Q1", &opts(&["x"]), 0, 1);
    let b = add_escalation(&mut reg, "r", "t2", "Q2", &opts(&["x"]), 0, 2);
    resolve_escalation(&mut reg, &a.id, "x");
    assert_eq!(get_escalation(&reg, &b.id), Some(b));
}
