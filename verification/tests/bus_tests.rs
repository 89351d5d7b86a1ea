use cdviz_collector::bus::{EventBus, RecvOutcome};
use cdviz_collector::message::Message;

fn sample_event(id: &str) -> cdevents_sdk::CDEvent {
    let json = format!(
        "{{\"context\":{{\"specversion\":\"0.5.1\",\"id\":\"{}\",\"source\":\"https://example.test/probe\",\"type\":\"com.example.probes.ping.0.1.0\",\"timestamp\":\"2026-06-25T12:00:00Z\"}},\"subject\":{{\"id\":\"0\",\"content\":{{}}}}}}",
        id
    );
    serde_json::from_str(&json).expect("sample event must deserialize")
}

fn msg(id: &str) -> Message {
    Message::from(sample_event(id))
}

#[test]
fn subscriber_created_after_publishes_sees_none_of_them() {
    let mut bus = EventBus::new(10);
    bus.publish(msg("a"));
    bus.publish(msg("b"));
    let mut sub = bus.subscribe();
    assert!(matches!(bus.receive(&mut sub), RecvOutcome::Empty));
    bus.close();
    assert!(matches!(bus.receive(&mut sub), RecvOutcome::Closed));
}

#[test]
fn current_subscriber_sees_every_message_once_in_order() {
    let mut bus = EventBus::new(100);
    let mut sub = bus.subscribe();
    for id in ["a", "b", "c", "d"] {
        bus.publish(msg(id));
    }
    for id in ["a", "b", "c", "d"] {
        match bus.receive(&mut sub) {
            RecvOutcome::Received(m) => assert_eq!(m.cdevent, sample_event(id)),
            _ => panic!("expected a message"),
        }
    }
    assert!(matches!(bus.receive(&mut sub), RecvOutcome::Empty));
}

#[test]
fn two_sources_interleaved_observed_in_global_send_order() {
    let mut bus = EventBus::new(100);
    let mut sink = bus.subscribe();
    // Two sources publish alternately through the same bus: A and C from one,
    // B and D from the other, interleaved in real time.
    bus.publish(msg("A"));
    bus.publish(msg("B"));
    match bus.receive(&mut sink) {
        RecvOutcome::Received(m) => assert_eq!(m.cdevent, sample_event("A")),
        _ => panic!("expected A"),
    }
    bus.publish(msg("C"));
    bus.publish(msg("D"));
    for id in ["B", "C", "D"] {
        match bus.receive(&mut sink) {
            RecvOutcome::Received(m) => assert_eq!(m.cdevent, sample_event(id)),
            _ => panic!("expected a message"),
        }
    }
    assert!(matches!(bus.receive(&mut sink), RecvOutcome::Empty));
}

#[test]
fn slow_subscriber_gets_one_lag_signal_counting_missed_messages() {
    let mut bus = EventBus::new(2);
    let mut sub = bus.subscribe();
    for id in ["1", "2", "3", "4", "5"] {
        bus.publish(msg(id));
    }
    // Five published, two retained: three were missed.
    match bus.receive(&mut sub) {
        RecvOutcome::Lagged(n) => assert_eq!(n, 3),
        _ => panic!("expected a lag signal"),
    }
    for id in ["4", "5"] {
        match bus.receive(&mut sub) {
            RecvOutcome::Received(m) => assert_eq!(m.cdevent, sample_event(id)),
            _ => panic!("expected a message"),
        }
    }
    assert!(matches!(bus.receive(&mut sub), RecvOutcome::Empty));
}

#[test]
fn capacity_two_retains_y_and_z_after_x_is_evicted() {
    let mut bus = EventBus::new(2);
    let mut sub = bus.subscribe();
    bus.publish(msg("X"));
    bus.publish(msg("Y"));
    bus.publish(msg("Z"));
    // X was evicted at capacity 2: exactly one message was missed.
    match bus.receive(&mut sub) {
        RecvOutcome::Lagged(n) => assert_eq!(n, 1),
        _ => panic!("expected a lag signal"),
    }
    match bus.receive(&mut sub) {
        RecvOutcome::Received(m) => assert_eq!(m.cdevent, sample_event("Y")),
        _ => panic!("expected Y"),
    }
    match bus.receive(&mut sub) {
        RecvOutcome::Received(m) => assert_eq!(m.cdevent, sample_event("Z")),
        _ => panic!("expected Z"),
    }
    assert!(matches!(bus.receive(&mut sub), RecvOutcome::Empty));
}

#[test]
fn publishing_without_subscribers_never_fails() {
    let mut bus = EventBus::new(1);
    bus.publish(msg("solo"));
    bus.publish(msg("duo"));
    let mut late = bus.subscribe();
    assert!(matches!(bus.receive(&mut late), RecvOutcome::Empty));
}
