use std::collections::HashMap;

use pusher_core::message::{MessageData, PusherMessage};
use pusher_core::utils::{socket_id_of, SocketIdIssuer};
use pusher_core::ws_message::{OnMessage, Outbound, WS};

fn frame(event: &str, channel: Option<&str>) -> OnMessage {
    let data = channel.map(|c| MessageData {
        channel_data: None,
        channel: Some(c.to_string()),
        user_data: None,
        extra: HashMap::new(),
    });
    OnMessage { message: PusherMessage { channel: None, name: None, event: event.to_string(), data } }
}

fn established() -> WS<()> {
    let mut ws = WS::new((), "app1".to_string());
    ws.started("7.3".to_string());
    ws
}

fn check_socket_id(id: &str) {
    let parts: Vec<&str> = id.split('.').collect();
    assert_eq!(parts.len(), 2);
    for p in &parts {
        assert!(!p.is_empty());
        assert!(p.chars().all(|c| c.is_ascii_digit()));
        assert!(*p == "0" || !p.starts_with('0'));
    }
    assert!(parts[0].parse::<u64>().unwrap() <= 10000000000);
}

#[test]
fn socket_ids_are_two_numbers_and_never_repeat() {
    let mut issuer = SocketIdIssuer::new();
    let mut seen = std::collections::HashSet::new();
    for _ in 0..200 {
        let id = issuer.generate_socket_id().unwrap();
        check_socket_id(&id);
        assert!(seen.insert(id));
    }
}

#[test]
fn socket_id_of_joins_decimals() {
    assert_eq!(socket_id_of(0, 0), "0.0");
    assert_eq!(socket_id_of(12, 3405), "12.3405");
    assert_eq!(socket_id_of(10000000000, 18446744073709551615), "10000000000.18446744073709551615");
}

#[test]
fn started_sends_connection_established() {
    let mut ws = WS::new((), "app1".to_string());
    assert_eq!(ws.id(), &None);
    let out = ws.started("42.9".to_string());
    let id = ws.id().clone().unwrap();
    assert_eq!(id, "42.9");
    match out {
        Some(Outbound::ConnectionEstablished { socket_id, activity_timeout }) => {
            assert_eq!(socket_id, id);
            assert_eq!(activity_timeout, 120);
        }
        _ => panic!("expected connection_established"),
    }
    assert!(ws.started("1.1".to_string()).is_none());
    assert_eq!(ws.id(), &Some("42.9".to_string()));
    assert_eq!(ws.app_id(), &Some("app1".to_string()));
}

#[test]
fn ping_gets_pong() {
    let ws = established();
    let r = ws.handle(frame("pusher:ping", None));
    assert!(matches!(r.reply, Some(Outbound::Pong)));
    assert!(r.join.is_none() && r.leave.is_none());
}

#[test]
fn subscribe_joins_then_acknowledges() {
    let ws = established();
    let r = ws.handle(frame("pusher:subscribe", Some("room")));
    assert!(matches!(r.reply, Some(Outbound::SubscriptionSucceeded)));
    assert_eq!(r.join, Some("room".to_string()));
    assert!(r.leave.is_none());
}

#[test]
fn subscribe_without_channel_is_dropped() {
    let ws = established();
    let r = ws.handle(frame("pusher:subscribe", None));
    assert!(r.reply.is_none() && r.join.is_none() && r.leave.is_none());
}

#[test]
fn unsubscribe_acknowledges_and_leaves() {
    let ws = established();
    let r = ws.handle(frame("pusher:unsubscribe", Some("room")));
    assert!(matches!(r.reply, Some(Outbound::Unsubscribed)));
    assert_eq!(r.leave, Some("room".to_string()));
    assert!(r.join.is_none());
}

#[test]
fn unknown_event_is_ignored() {
    let ws = established();
    let r = ws.handle(frame("client-whatever", Some("room")));
    assert!(r.reply.is_none() && r.join.is_none() && r.leave.is_none());
}

#[test]
fn frames_before_accept_are_ignored() {
    let ws = WS::new((), "app1".to_string());
    let r = ws.handle(frame("pusher:ping", None));
    assert!(r.reply.is_none());
}

#[test]
fn close_unregisters_once() {
    let mut ws = established();
    let id = ws.id().clone();
    assert_eq!(ws.stopped(), id);
    assert_eq!(ws.stopped(), None);
    assert_eq!(ws.id(), &id);
    let r = ws.handle(frame("pusher:ping", None));
    assert!(r.reply.is_none());
}

#[test]
fn close_before_accept_unregisters_nothing() {
    let mut ws = WS::new((), "app1".to_string());
    assert_eq!(ws.stopped(), None);
}

#[test]
fn event_names_on_the_wire() {
    assert_eq!(Outbound::Pong.event_name(), "pusher:pong");
    assert_eq!(Outbound::SubscriptionSucceeded.event_name(), "pusher_internal:subscription_succeeded");
    assert_eq!(Outbound::Unsubscribed.event_name(), "pusher_internal:unsubscribed");
    let e = Outbound::ConnectionEstablished { socket_id: "1.2".to_string(), activity_timeout: 120 };
    assert_eq!(e.event_name(), "pusher:connection_established");
}
