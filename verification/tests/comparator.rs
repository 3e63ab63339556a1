use txrace::collector::{Collector, Observation};
use txrace::comparator::{compare, race_outcome, RaceOutcome, TxComparison, Winner};
use txrace::ids::{Address, TxId};

fn tx(n: u64) -> TxId {
    TxId { w0: n, w1: 0, w2: 0, w3: 0 }
}

fn target() -> Address {
    Address { w0: 0x3fc91a3afd70395c, w1: 0xd496c647d5a6cc9d, w2: 0x4b2b7fad }
}

fn obs(n: u64, t: u128) -> Observation {
    Observation { id: tx(n), timestamp_millis: t }
}

#[test]
fn earlier_first_timestamp_wins_with_difference() {
    assert_eq!(
        race_outcome(100, 120),
        RaceOutcome::AWins { advantage_millis: 20 }
    );
    assert_eq!(
        race_outcome(140, 120),
        RaceOutcome::BWins { advantage_millis: 20 }
    );
}

#[test]
fn equal_timestamps_are_a_tie() {
    assert_eq!(race_outcome(120, 120), RaceOutcome::Tie);
}

#[test]
fn only_shared_identifiers_are_compared() {
    let a = vec![obs(1, 100), obs(3, 200)];
    let b = vec![obs(1, 120), obs(4, 210)];
    let report = compare(&a, &b);
    assert_eq!(report.comparisons.len(), 1);
    assert_eq!(report.comparisons[0].id, tx(1));
    for c in &report.comparisons {
        assert_ne!(c.id, tx(3));
        assert_ne!(c.id, tx(4));
    }
}

#[test]
fn ties_are_not_counted_for_either_endpoint() {
    let a = vec![obs(1, 100), obs(2, 100)];
    let b = vec![obs(1, 100), obs(2, 90)];
    let report = compare(&a, &b);
    assert_eq!(report.comparisons.len(), 1);
    assert_eq!(
        report.comparisons[0],
        TxComparison { id: tx(2), winner: Winner::EndpointB, advantage_millis: 10 }
    );
    assert_eq!(report.wins_a, 0);
    assert_eq!(report.wins_b, 1);
}

#[test]
fn empty_maps_compare_to_an_empty_report() {
    let a: Vec<Observation> = vec![];
    let b: Vec<Observation> = vec![];
    let report = compare(&a, &b);
    assert!(report.comparisons.is_empty());
    assert_eq!(report.wins_a, 0);
    assert_eq!(report.wins_b, 0);
}

#[test]
fn disjoint_maps_compare_to_an_empty_report() {
    let a = vec![obs(1, 100), obs(2, 110)];
    let b = vec![obs(3, 100), obs(4, 110)];
    let report = compare(&a, &b);
    assert!(report.comparisons.is_empty());
    assert_eq!(report.wins_a, 0);
    assert_eq!(report.wins_b, 0);
}

#[test]
fn race_of_two_collectors_with_partial_overlap() {
    let target_count = 3;
    let mut a = Collector::new(target(), target_count);
    let mut b = Collector::new(target(), target_count);
    a.on_subscribed();
    b.on_subscribed();

    assert!(a.observe(tx(1), Some(target()), 100));
    assert!(a.observe(tx(2), Some(target()), 150));
    assert!(a.observe(tx(3), Some(target()), 200));
    assert!(a.is_complete());

    assert!(b.observe(tx(1), Some(target()), 120));
    assert!(b.observe(tx(2), Some(target()), 140));
    assert!(!b.is_complete());

    assert!(b.observe(tx(4), Some(target()), 210));
    assert!(b.is_complete());

    let report = compare(&a.into_observations(), &b.into_observations());
    assert_eq!(report.comparisons.len(), 2);
    assert_eq!(
        report.comparisons[0],
        TxComparison { id: tx(1), winner: Winner::EndpointA, advantage_millis: 20 }
    );
    assert_eq!(
        report.comparisons[1],
        TxComparison { id: tx(2), winner: Winner::EndpointB, advantage_millis: 10 }
    );
    assert_eq!(report.wins_a, 1);
    assert_eq!(report.wins_b, 1);
}
