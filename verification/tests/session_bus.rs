use llm_wiki::session_bus::{data_or_empty, SessionBus, SseEvent, PER_SESSION_BUFFER};

fn evt(t: &str) -> SseEvent {
    SseEvent {
        event_type: t.into(),
        data: serde_json::Value::Object(Default::default()),
    }
}

#[test]
fn register_and_send_delivers_event() {
    let mut bus = SessionBus::new();
    let mut rx = bus.register("sid-1");
    assert!(bus.send_to("sid-1", evt("ping")));
    let received = rx.try_recv().unwrap();
    assert_eq!(received.event_type, "ping");
}

#[test]
fn send_to_unknown_session_returns_false() {
    let mut bus = SessionBus::new();
    assert!(!bus.send_to("nobody", evt("ping")));
}

#[test]
fn unregister_removes_session() {
    let mut bus = SessionBus::new();
    let _rx = bus.register("sid-1");
    assert_eq!(bus.registered_count(), 1);
    bus.unregister("sid-1");
    assert_eq!(bus.registered_count(), 0);
    assert!(!bus.send_to("sid-1", evt("ping")));
}

#[test]
fn re_register_replaces_previous_sender() {
    let mut bus = SessionBus::new();
    let _rx1 = bus.register("sid-1");
    let mut rx2 = bus.register("sid-1");
    assert!(bus.send_to("sid-1", evt("hello")));
    let received = rx2.try_recv().unwrap();
    assert_eq!(received.event_type, "hello");
}

#[test]
fn send_drops_silently_when_buffer_full() {
    let mut bus = SessionBus::new();
    let _rx = bus.register("sid-1");
    for _ in 0..PER_SESSION_BUFFER {
        assert!(bus.send_to("sid-1", evt("ping")));
    }
    assert!(!bus.send_to("sid-1", evt("overflow")));
}

#[test]
fn events_go_to_their_session_alone() {
    let mut bus = SessionBus::new();
    let mut mine = bus.register("mine");
    let mut other = bus.register("other");
    assert!(bus.send_to("mine", evt("for-me")));
    assert_eq!(mine.try_recv().unwrap().event_type, "for-me");
    assert!(other.try_recv().is_err());
    bus.unregister("other");
    assert!(bus.send_to("mine", evt("again")));
}

#[test]
fn send_to_a_session_that_went_away_fails() {
    let mut bus = SessionBus::new();
    let rx = bus.register("sid-1");
    drop(rx);
    assert!(!bus.send_to("sid-1", evt("ping")));
}

#[test]
fn two_concurrent_subscribers_for_same_session_both_receive_events() {
    let mut bus = SessionBus::new();
    let mut rx1 = bus.register("sid-1");
    let mut rx2 = bus.register("sid-1");
    assert_eq!(bus.registered_count(), 2);
    assert!(bus.send_to("sid-1", evt("hello")));
    assert_eq!(rx1.try_recv().unwrap().event_type, "hello");
    assert_eq!(rx2.try_recv().unwrap().event_type, "hello");
}

#[test]
fn event_is_offered_once_to_each_connection_of_its_session_alone() {
    let mut bus = SessionBus::new();
    let mut mine = [bus.register("a"), bus.register("a")];
    let mut other = bus.register("b");
    assert!(bus.send_to("a", evt("one")));
    assert!(bus.send_to("a", evt("two")));
    for rx in &mut mine {
        assert_eq!(rx.try_recv().unwrap().event_type, "one");
        assert_eq!(rx.try_recv().unwrap().event_type, "two");
        assert!(rx.try_recv().is_err());
    }
    assert!(other.try_recv().is_err());
    assert_eq!(bus.registered_count(), 3);
}

#[test]
fn dropping_one_subscriber_does_not_remove_the_other() {
    let mut bus = SessionBus::new();
    let rx1 = bus.register("sid-1");
    let first = bus.connection_of("sid-1").unwrap();
    let mut rx2 = bus.register("sid-1");
    let second = bus.connection_of("sid-1").unwrap();
    assert_ne!(first, second);
    drop(rx1);
    bus.unregister_connection(first);
    assert!(bus.send_to("sid-1", evt("still-here")));
    assert_eq!(rx2.try_recv().unwrap().event_type, "still-here");
    bus.unregister_connection(second);
    assert_eq!(bus.connection_of("sid-1"), None);
    assert_eq!(bus.registered_count(), 0);
}

#[test]
fn event_counts_as_delivered_where_one_connection_took_it() {
    let mut bus = SessionBus::new();
    let rx1 = bus.register("sid-1");
    let mut rx2 = bus.register("sid-1");
    drop(rx1);
    assert!(bus.send_to("sid-1", evt("ping")));
    assert_eq!(rx2.try_recv().unwrap().event_type, "ping");
    bus.unregister("sid-1");
    assert_eq!(bus.registered_count(), 0);
    assert!(!bus.send_to("sid-1", evt("ping")));
}

#[test]
fn event_arrives_with_its_data() {
    let mut bus = SessionBus::new();
    let mut rx = bus.register("sid-1");
    let data: serde_json::Value = serde_json::from_str(r#"{"a":[1,"x"]}"#).unwrap();
    let sent = SseEvent { event_type: "t".into(), data: data.clone() };
    assert!(bus.send_to("sid-1", sent));
    assert_eq!(rx.try_recv().unwrap().data, data);
}

#[test]
fn delivery_needs_a_connection_and_room() {
    assert!(SessionBus::delivered(&vec![false, true]));
    assert!(!SessionBus::delivered(&vec![false, false]));
    assert!(!SessionBus::delivered(&vec![]));
}

#[test]
fn the_body_of_an_event_is_compact_json() {
    let mut data = serde_json::Map::new();
    data.insert("b".to_string(), serde_json::Value::from(vec![1, 2]));
    data.insert("a".to_string(), serde_json::Value::from("x"));
    let sent = SseEvent { event_type: "t".into(), data: serde_json::Value::Object(data) };
    assert_eq!(sent.body(), "{\"a\":\"x\",\"b\":[1,2]}");
    assert_eq!(data_or_empty(None), "{}");
    assert_eq!(data_or_empty(Some("7".to_string())), "7");
}
