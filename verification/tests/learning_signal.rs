use condukt::learning_signal::{aggregate, LearningSignal, RetrievalEvent};
use std::cell::RefCell;
use std::collections::HashMap as StdHashMap;

fn ev(run: &str, hit: bool) -> RetrievalEvent {
    RetrievalEvent {
        run_id: run.to_string(),
        hit,
    }
}

fn totals_fn(map: StdHashMap<&'static str, usize>) -> impl Fn(&str) -> usize {
    move |run_id: &str| map.get(run_id).copied().unwrap_or(0)
}

const EPS: f64 = 1e-9;

fn mean(total: u128, size: usize) -> Option<f64> {
    if size == 0 {
        None
    } else {
        Some(total as f64 / size as f64)
    }
}

fn numerator_mean(sig: &LearningSignal) -> Option<f64> {
    mean(sig.hit_total, sig.hit_sample_size)
}

fn denominator_mean(sig: &LearningSignal) -> Option<f64> {
    mean(sig.miss_total, sig.miss_sample_size)
}

fn ratio_of(sig: &LearningSignal) -> Option<f64> {
    if sig.has_ratio() {
        Some(1.0 - numerator_mean(sig)? / denominator_mean(sig)?)
    } else {
        None
    }
}

#[test]
fn known_distribution_expected_ratio() {
    let events = vec![
        ev("r1", true),
        ev("r2", true),
        ev("r3", false),
        ev("r4", false),
        ev("r5", false),
    ];
    let totals: StdHashMap<&str, usize> =
        [("r1", 1), ("r2", 1), ("r3", 3), ("r4", 3), ("r5", 3)].into();
    let sig = aggregate(&events, totals_fn(totals));

    assert_eq!(sig.hit_sample_size, 2);
    assert_eq!(sig.miss_sample_size, 3);
    assert!((numerator_mean(&sig).unwrap() - 1.0).abs() < EPS);
    assert!((denominator_mean(&sig).unwrap() - 3.0).abs() < EPS);
    let ratio = ratio_of(&sig).expect("ratio must be defined");
    assert!(
        (ratio - (2.0 / 3.0)).abs() < 1e-6,
        "expected ~0.6667, got {ratio}"
    );
}

#[test]
fn empty_ledger_yields_none_and_zero_sizes() {
    let sig = aggregate(&Vec::new(), totals_fn(StdHashMap::new()));
    assert_eq!(ratio_of(&sig), None);
    assert_eq!(numerator_mean(&sig), None);
    assert_eq!(denominator_mean(&sig), None);
    assert_eq!(sig.hit_sample_size, 0);
    assert_eq!(sig.miss_sample_size, 0);
}

#[test]
fn hit_only_yields_none_ratio_but_computed_numerator() {
    let events = vec![ev("r1", true), ev("r2", true)];
    let totals: StdHashMap<&str, usize> = [("r1", 2), ("r2", 4)].into();
    let sig = aggregate(&events, totals_fn(totals));

    assert_eq!(sig.hit_sample_size, 2);
    assert_eq!(sig.miss_sample_size, 0);
    assert!((numerator_mean(&sig).unwrap() - 3.0).abs() < EPS);
    assert_eq!(denominator_mean(&sig), None);
    assert_eq!(ratio_of(&sig), None, "no miss group → ratio undefined");
}

#[test]
fn miss_only_yields_none_ratio_but_computed_denominator() {
    let events = vec![ev("r1", false), ev("r2", false)];
    let totals: StdHashMap<&str, usize> = [("r1", 1), ("r2", 5)].into();
    let sig = aggregate(&events, totals_fn(totals));

    assert_eq!(sig.hit_sample_size, 0);
    assert_eq!(sig.miss_sample_size, 2);
    assert_eq!(numerator_mean(&sig), None);
    assert!((denominator_mean(&sig).unwrap() - 3.0).abs() < EPS);
    assert_eq!(ratio_of(&sig), None, "no hit group → ratio undefined");
}

#[test]
fn single_run_each_group() {
    let events = vec![ev("r1", true), ev("r2", false)];
    let totals: StdHashMap<&str, usize> = [("r1", 0), ("r2", 2)].into();
    let sig = aggregate(&events, totals_fn(totals));

    assert_eq!(sig.hit_sample_size, 1);
    assert_eq!(sig.miss_sample_size, 1);
    assert_eq!(numerator_mean(&sig), Some(0.0));
    assert_eq!(denominator_mean(&sig), Some(2.0));
    assert!((ratio_of(&sig).unwrap() - 1.0).abs() < EPS);
}

#[test]
fn mean_miss_zero_yields_none_and_never_panics() {
    let events = vec![ev("r1", true), ev("r2", false), ev("r3", false)];
    let totals: StdHashMap<&str, usize> = [("r1", 5), ("r2", 0), ("r3", 0)].into();
    let sig = aggregate(&events, totals_fn(totals));

    assert_eq!(sig.hit_sample_size, 1);
    assert_eq!(sig.miss_sample_size, 2);
    assert_eq!(numerator_mean(&sig), Some(5.0));
    assert_eq!(denominator_mean(&sig), Some(0.0));
    assert_eq!(
        ratio_of(&sig), None,
        "mean_miss == 0.0 must guard the division, not divide by zero"
    );
}

#[test]
fn duplicate_run_id_last_event_wins_bucket() {
    let events = vec![ev("r1", true), ev("r1", false)];
    let totals: StdHashMap<&str, usize> = [("r1", 4)].into();
    let sig = aggregate(&events, totals_fn(totals));

    assert_eq!(sig.hit_sample_size, 0);
    assert_eq!(sig.miss_sample_size, 1);
    assert_eq!(numerator_mean(&sig), None);
    assert_eq!(denominator_mean(&sig), Some(4.0));
}

#[test]
fn missing_run_in_totals_fn_defaults_to_zero_replans() {
    let events = vec![ev("r1", true), ev("r2", false)];
    let sig = aggregate(&events, totals_fn(StdHashMap::new()));

    assert_eq!(numerator_mean(&sig), Some(0.0));
    assert_eq!(denominator_mean(&sig), Some(0.0));
    assert_eq!(ratio_of(&sig), None, "mean_miss == 0.0 → ratio undefined");
}

#[test]
fn every_run_is_counted_once() {
    let events = vec![ev("r1", false), ev("r2", true), ev("r1", true), ev("r2", true)];
    let totals: StdHashMap<&str, usize> = [("r1", 2), ("r2", 5)].into();
    assert_eq!(
        aggregate(&events, totals_fn(totals)),
        LearningSignal {
            hit_total: 7,
            hit_sample_size: 2,
            miss_total: 0,
            miss_sample_size: 0,
        }
    );
}

#[test]
fn every_event_is_asked_about_once_and_the_last_answer_counts() {
    let events = vec![ev("r1", false), ev("r2", true), ev("r1", true)];
    let asked: RefCell<Vec<String>> = RefCell::new(Vec::new());
    let sig = aggregate(&events, |run: &str| {
        asked.borrow_mut().push(run.to_string());
        asked.borrow().len()
    });
    assert_eq!(*asked.borrow(), vec!["r1", "r2", "r1"]);
    assert_eq!((sig.hit_total, sig.hit_sample_size), (5, 2));
    assert_eq!((sig.miss_total, sig.miss_sample_size), (0, 0));
}

#[test]
fn large_totals_do_not_overflow() {
    let events = vec![ev("r1", true), ev("r2", true)];
    let sig = aggregate(&events, |_: &str| usize::MAX);
    assert_eq!(sig.hit_total, 2 * (usize::MAX as u128));
}
