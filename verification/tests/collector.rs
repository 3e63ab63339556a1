use txrace::collector::{find_timestamp, Collector};
use txrace::ids::{Address, TxId};

fn tx(n: u64) -> TxId {
    TxId { w0: n, w1: 0, w2: 0, w3: 0 }
}

fn target() -> Address {
    Address { w0: 0x3fc91a3afd70395c, w1: 0xd496c647d5a6cc9d, w2: 0x4b2b7fad }
}

fn other_address() -> Address {
    Address { w0: 1, w1: 2, w2: 3 }
}

#[test]
fn fresh_collector_is_empty_and_incomplete() {
    let c = Collector::new(target(), 3);
    assert!(!c.is_complete());
    assert_eq!(c.observation_count(), 0);
}

#[test]
fn notification_for_other_destination_is_discarded() {
    let mut c = Collector::new(target(), 3);
    c.on_subscribed();
    assert!(!c.observe(tx(1), Some(other_address()), 100));
    assert!(!c.observe(tx(2), None, 110));
    assert_eq!(c.observation_count(), 0);
    assert!(!c.is_complete());
}

#[test]
fn duplicate_identifier_keeps_first_timestamp() {
    let mut c = Collector::new(target(), 3);
    c.on_subscribed();
    assert!(c.observe(tx(1), Some(target()), 100));
    assert!(!c.observe(tx(1), Some(target()), 150));
    assert_eq!(c.observation_count(), 1);
    assert!(c.observe(tx(2), Some(target()), 160));
    assert!(c.observe(tx(3), Some(target()), 170));
    let obs = c.into_observations();
    assert_eq!(find_timestamp(&obs, tx(1)), Some(100));
}

#[test]
fn completes_exactly_at_target_count() {
    let mut c = Collector::new(target(), 3);
    c.on_subscribed();
    assert!(c.observe(tx(1), Some(target()), 100));
    assert!(!c.is_complete());
    assert!(c.observe(tx(2), Some(target()), 110));
    assert!(!c.is_complete());
    assert!(c.observe(tx(3), Some(target()), 120));
    assert!(c.is_complete());
    assert_eq!(c.observation_count(), 3);
}

#[test]
fn resubscription_keeps_gathered_observations() {
    let mut c = Collector::new(target(), 2);
    c.on_subscribed();
    assert!(c.observe(tx(1), Some(target()), 100));
    c.on_stream_ended();
    c.on_subscribed();
    assert_eq!(c.observation_count(), 1);
    assert!(c.observe(tx(2), Some(target()), 130));
    assert!(c.is_complete());
    let obs = c.into_observations();
    assert_eq!(find_timestamp(&obs, tx(1)), Some(100));
    assert_eq!(find_timestamp(&obs, tx(2)), Some(130));
    assert_eq!(find_timestamp(&obs, tx(9)), None);
}

#[test]
fn zero_target_completes_after_first_observation() {
    let mut c = Collector::new(target(), 0);
    c.on_subscribed();
    assert!(!c.is_complete());
    assert!(c.observe(tx(1), Some(target()), 100));
    assert!(c.is_complete());
}
