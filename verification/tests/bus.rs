use commander::bus::{Bus, RecvOutcome};

fn expect_received(bus: &mut Bus, id: usize) -> String {
    match bus.recv(id) {
        RecvOutcome::Received(m) => m,
        RecvOutcome::Lagged(n) => panic!("unexpected lag of {}", n),
        RecvOutcome::Closed => panic!("unexpected close"),
        RecvOutcome::Pending => panic!("unexpected pending"),
    }
}

#[test]
fn subscriber_sees_only_later_messages_in_order() {
    let mut bus = Bus::new(8);
    bus.publish(&"before".to_string());
    let id = bus.subscribe();
    bus.publish(&"one".to_string());
    bus.publish(&"two".to_string());
    assert_eq!(expect_received(&mut bus, id), "one");
    assert_eq!(expect_received(&mut bus, id), "two");
    assert!(matches!(bus.recv(id), RecvOutcome::Pending));
}

#[test]
fn slow_subscriber_lags_while_fast_sees_all() {
    let mut bus = Bus::new(3);
    let slow = bus.subscribe();
    let fast = bus.subscribe();
    let msgs = ["m1", "m2", "m3", "m4", "m5"];
    for m in msgs.iter() {
        bus.publish(&m.to_string());
        assert_eq!(expect_received(&mut bus, fast), *m);
    }
    match bus.recv(slow) {
        RecvOutcome::Lagged(n) => assert_eq!(n, 2),
        _ => panic!("expected a lag notice"),
    }
    assert_eq!(expect_received(&mut bus, slow), "m3");
    assert_eq!(expect_received(&mut bus, slow), "m4");
    assert_eq!(expect_received(&mut bus, slow), "m5");
    assert!(matches!(bus.recv(slow), RecvOutcome::Pending));
    assert!(matches!(bus.recv(fast), RecvOutcome::Pending));
}

#[test]
fn lag_is_reported_once_then_cleared() {
    let mut bus = Bus::new(1);
    let id = bus.subscribe();
    bus.publish(&"a".to_string());
    bus.publish(&"b".to_string());
    bus.publish(&"c".to_string());
    match bus.recv(id) {
        RecvOutcome::Lagged(n) => assert_eq!(n, 2),
        _ => panic!("expected a lag notice"),
    }
    assert_eq!(expect_received(&mut bus, id), "c");
    assert!(matches!(bus.recv(id), RecvOutcome::Pending));
}

#[test]
fn closed_bus_drains_queue_before_terminal_notice() {
    let mut bus = Bus::new(4);
    let id = bus.subscribe();
    bus.publish(&"last".to_string());
    bus.close();
    assert_eq!(expect_received(&mut bus, id), "last");
    assert!(matches!(bus.recv(id), RecvOutcome::Closed));
}

#[test]
fn publish_without_subscribers_is_dropped() {
    let mut bus = Bus::new(4);
    bus.publish(&"nobody hears".to_string());
    let id = bus.subscribe();
    assert!(matches!(bus.recv(id), RecvOutcome::Pending));
}

#[test]
fn detached_subscriber_receives_nothing_more() {
    let mut bus = Bus::new(4);
    let id = bus.subscribe();
    bus.publish(&"heard".to_string());
    bus.unsubscribe(id);
    bus.publish(&"unheard".to_string());
    assert_eq!(expect_received(&mut bus, id), "heard");
    assert!(matches!(bus.recv(id), RecvOutcome::Pending));
}
