use cxdb::events::{EventBus, StoreEvent};
use std::time::Duration;

#[test]
fn test_event_bus_basic() {
    let mut bus = EventBus::new();
    let sub = bus.subscribe();

    bus.publish(StoreEvent::ClientConnected {
        session_id: "123".to_string(),
        client_tag: "test".to_string(),
    });

    let event = sub.recv_timeout(Duration::from_millis(100));
    assert!(event.is_some());
    match event.unwrap() {
        StoreEvent::ClientConnected { session_id, .. } => {
            assert_eq!(session_id, "123");
        }
        _ => panic!("wrong event type"),
    }
}

#[test]
fn test_event_bus_multiple_subscribers() {
    let mut bus = EventBus::new();
    let sub1 = bus.subscribe();
    let sub2 = bus.subscribe();

    bus.publish(StoreEvent::ContextCreated {
        context_id: "1".to_string(),
        session_id: "2".to_string(),
        client_tag: "tag".to_string(),
        created_at: 12345,
    });

    assert!(sub1.recv_timeout(Duration::from_millis(100)).is_some());
    assert!(sub2.recv_timeout(Duration::from_millis(100)).is_some());
}

#[test]
fn test_event_to_sse() {
    let event = StoreEvent::ContextMetadataUpdated {
        context_id: "123".to_string(),
        client_tag: Some("code-agent".to_string()),
        title: Some("Fix bug".to_string()),
        labels: Some(vec!["urgent".to_string()]),
        has_provenance: true,
    };

    let (event_type, data) = event.to_sse();
    assert_eq!(event_type, "context_metadata_updated");
    assert!(data.contains("\"context_id\":\"123\""));
    assert!(data.contains("\"title\":\"Fix bug\""));
}

#[test]
fn test_context_linked_event_to_sse() {
    let event = StoreEvent::ContextLinked {
        child_context_id: "12".to_string(),
        parent_context_id: "5".to_string(),
        root_context_id: Some("1".to_string()),
        spawn_reason: Some("sub_agent".to_string()),
    };

    let (event_type, data) = event.to_sse();
    assert_eq!(event_type, "context_linked");
    assert!(data.contains("\"child_context_id\":\"12\""));
    assert!(data.contains("\"parent_context_id\":\"5\""));
}

#[test]
fn test_subscriber_cleanup() {
    let mut bus = EventBus::new();

    {
        let _sub = bus.subscribe();
        assert_eq!(bus.subscriber_count(), 1);
    }
    // Subscriber dropped, but won't be cleaned up until next publish

    bus.publish(StoreEvent::ClientConnected {
        session_id: "1".to_string(),
        client_tag: "test".to_string(),
    });

    // Now the dead subscriber should be removed
    assert_eq!(bus.subscriber_count(), 0);
}

#[test]
fn fan_out_keeps_order_and_drops_dead_subscribers() {
    let mut bus = EventBus::new();
    let s1 = bus.subscribe();
    let s2 = bus.subscribe();

    bus.publish(StoreEvent::ContextCreated {
        context_id: "7".to_string(),
        session_id: "1".to_string(),
        client_tag: "t".to_string(),
        created_at: 1,
    });
    bus.publish(StoreEvent::TurnAppended {
        context_id: "7".to_string(),
        turn_id: "1".to_string(),
        parent_turn_id: "0".to_string(),
        depth: 0,
        declared_type_id: None,
        declared_type_version: None,
    });

    for sub in [&s1, &s2] {
        let first = sub.try_recv().expect("first event");
        assert!(matches!(first, StoreEvent::ContextCreated { .. }));
        let second = sub.try_recv().expect("second event");
        assert!(matches!(second, StoreEvent::TurnAppended { .. }));
        assert!(sub.try_recv().is_none());
    }

    drop(s1);
    bus.publish(StoreEvent::ClientConnected {
        session_id: "9".to_string(),
        client_tag: "x".to_string(),
    });
    assert_eq!(bus.subscriber_count(), 1);
    let third = s2.recv().expect("third event");
    assert!(matches!(third, StoreEvent::ClientConnected { .. }));
}

#[test]
fn event_json_has_exact_text() {
    let created = StoreEvent::ContextCreated {
        context_id: "42".to_string(),
        session_id: "7".to_string(),
        client_tag: "cli".to_string(),
        created_at: 1739481600000,
    };
    let (name, data) = created.to_sse();
    assert_eq!(name, "context_created");
    assert_eq!(
        data,
        "{\"client_tag\":\"cli\",\"context_id\":\"42\",\"created_at\":1739481600000,\"session_id\":\"7\"}"
    );

    let appended = StoreEvent::TurnAppended {
        context_id: "1".to_string(),
        turn_id: "2".to_string(),
        parent_turn_id: "0".to_string(),
        depth: 3,
        declared_type_id: None,
        declared_type_version: Some(4),
    };
    let (name, data) = appended.to_sse();
    assert_eq!(name, "turn_appended");
    assert_eq!(
        data,
        "{\"context_id\":\"1\",\"declared_type_version\":4,\"depth\":3,\"parent_turn_id\":\"0\",\"turn_id\":\"2\"}"
    );

    let gone = StoreEvent::ClientDisconnected {
        session_id: "5".to_string(),
        client_tag: "".to_string(),
        contexts: vec!["1".to_string(), "2".to_string()],
    };
    let (name, data) = gone.to_sse();
    assert_eq!(name, "client_disconnected");
    assert_eq!(data, "{\"client_tag\":\"\",\"contexts\":[\"1\",\"2\"],\"session_id\":\"5\"}");

    let connected = StoreEvent::ClientConnected {
        session_id: "5".to_string(),
        client_tag: "a\"b".to_string(),
    };
    assert_eq!(connected.to_sse().1, "{\"client_tag\":\"a\\\"b\",\"session_id\":\"5\"}");
}

#[test]
fn subscriptions_are_kept_as_the_sends_went() {
    let mut bus = EventBus::new();
    let first = bus.subscribe();
    let second = bus.subscribe();
    let third = bus.subscribe();
    bus.keep_delivered(&vec![true, false, true]);
    assert_eq!(bus.subscriber_count(), 2);
    bus.publish(StoreEvent::ClientConnected { session_id: "1".to_string(), client_tag: "t".to_string() });
    assert!(first.try_recv().is_some());
    assert!(second.try_recv().is_none());
    assert!(third.try_recv().is_some());
    bus.keep_delivered(&vec![false, false]);
    assert_eq!(bus.subscriber_count(), 0);
    bus.keep_delivered(&Vec::new());
    assert_eq!(bus.subscriber_count(), 0);
}
