use pusher_core::adapter::local_adapter::{
    AdapterError, AddSocket, AddToChannel, GetNamespace, LocalAdapter, RemoveFromChannel,
    RemoveSocket, SendMessage,
};
use pusher_core::app::{true_, AppConfig};
use pusher_core::channel_managers::public_channel_manager::{Join, Leave, PublicChannelManager};
use pusher_core::message::{AnyValue, PusherApiMessage};
use pusher_core::namespace::GetSockets;

fn s(x: &str) -> String {
    x.to_string()
}

fn adapter() -> LocalAdapter<u32> {
    let mut a = LocalAdapter::new();
    a.started();
    a
}

fn register(a: &mut LocalAdapter<u32>, app: &str, id: &str) {
    a.register_connection(AddSocket { app_id: s(app), socket_id: s(id), socket_addr: 0 }).unwrap();
}

fn join(a: &mut LocalAdapter<u32>, app: &str, id: &str, ch: &str) -> Result<usize, AdapterError> {
    a.join_channel(AddToChannel { app_id: s(app), channel: s(ch), socket_id: s(id) })
}

fn request(channels: Vec<&str>) -> PusherApiMessage {
    PusherApiMessage {
        name: Some(s("msg")),
        data: Some(s("hi")),
        channel: None,
        channels: Some(channels.into_iter().map(s).collect()),
        socket_id: None,
        info: None,
    }
}

fn sorted(mut v: Vec<String>) -> Vec<String> {
    v.sort();
    v
}

fn config(id: &str) -> AppConfig {
    AppConfig {
        id: s(id),
        key: s("key"),
        secret: None,
        max_connections: None,
        enable_client_messages: true_(),
        enabled: true_(),
        max_backend_events_per_second: None,
        max_client_events_per_second: None,
        max_read_requests_per_minute: None,
        webhooks: Vec::new(),
        max_presence_member_size_in_kb: None,
        max_channel_name_length: None,
        max_event_channel_at_once: None,
        max_event_name_length: None,
        max_event_payload_in_kb: None,
        max_event_batch_size: None,
        enable_user_authentication: true_(),
        has_client_event_webhooks: false,
        has_channel_occupied_webhooks: false,
        has_channel_vacated_webhooks: false,
        has_member_added_webhooks: false,
        has_member_removed_webhooks: false,
        has_cache_missed_webhooks: false,
    }
}

#[test]
fn publish_to_both_subscribers() {
    let mut a = adapter();
    register(&mut a, "app1", "S1");
    register(&mut a, "app1", "S2");
    assert_eq!(join(&mut a, "app1", "S1", "room"), Ok(1));
    assert_eq!(join(&mut a, "app1", "S2", "room"), Ok(2));
    let out = a.publish(SendMessage { app_id: s("app1"), message: request(vec!["room"]) }).unwrap();
    assert_eq!(out.len(), 1);
    assert_eq!(sorted(out[0].recipients.clone()), vec![s("S1"), s("S2")]);
    assert_eq!(out[0].frame.event, Some(s("msg")));
    assert_eq!(out[0].frame.channel, Some(s("room")));
    assert!(matches!(out[0].frame.data, Some(AnyValue::String(ref d)) if d == "hi"));
}

#[test]
fn publish_reaches_registered_non_member() {
    let mut a = adapter();
    register(&mut a, "app1", "S1");
    register(&mut a, "app1", "S2");
    register(&mut a, "app1", "S3");
    join(&mut a, "app1", "S1", "room").unwrap();
    join(&mut a, "app1", "S2", "room").unwrap();
    let out = a.publish(SendMessage { app_id: s("app1"), message: request(vec!["room"]) }).unwrap();
    assert_eq!(sorted(out[0].recipients.clone()), vec![s("S1"), s("S2"), s("S3")]);
}

#[test]
fn publish_to_unknown_app_fails() {
    let mut a = adapter();
    register(&mut a, "app1", "S1");
    let r = a.publish(SendMessage { app_id: s("nope"), message: request(vec!["room"]) });
    assert!(matches!(r, Err(AdapterError::AppNotFound)));
}

#[test]
fn publish_one_delivery_per_channel() {
    let mut a = adapter();
    register(&mut a, "app1", "S1");
    let out = a.publish(SendMessage { app_id: s("app1"), message: request(vec!["a", "b"]) }).unwrap();
    assert_eq!(out.len(), 2);
    assert_eq!(out[0].frame.channel, Some(s("a")));
    assert_eq!(out[1].frame.channel, Some(s("b")));
}

#[test]
fn publish_single_channel_field() {
    let mut a = adapter();
    register(&mut a, "app1", "S1");
    let mut m = request(vec![]);
    m.channels = None;
    m.channel = Some(s("solo"));
    let out = a.publish(SendMessage { app_id: s("app1"), message: m }).unwrap();
    assert_eq!(out.len(), 1);
    assert_eq!(out[0].frame.channel, Some(s("solo")));
}

#[test]
fn apps_are_isolated() {
    let mut a = adapter();
    register(&mut a, "app1", "S1");
    register(&mut a, "app2", "T1");
    assert_eq!(join(&mut a, "app2", "T1", "room"), Ok(1));
    assert_eq!(join(&mut a, "app1", "S1", "room"), Ok(1));
    let out = a.publish(SendMessage { app_id: s("app2"), message: request(vec!["room"]) }).unwrap();
    assert_eq!(out[0].recipients, vec![s("T1")]);
}

#[test]
fn unknown_app_errors_everywhere() {
    let mut a = adapter();
    assert_eq!(
        a.register_connection(AddSocket { app_id: s("x"), socket_id: s("1"), socket_addr: 0 }),
        Err(AdapterError::AppNotFound)
    );
    assert_eq!(join(&mut a, "x", "1", "room"), Err(AdapterError::AppNotFound));
    assert_eq!(
        a.leave_channel(RemoveFromChannel { app_id: s("x"), channel: s("room"), socket_id: s("1") }),
        Err(AdapterError::AppNotFound)
    );
    assert_eq!(
        a.unregister_connection(RemoveSocket { app_id: s("x"), socket_id: s("1"), socket_addr: 0 }),
        Err(AdapterError::AppNotFound)
    );
    assert!(a.get_namespace(GetNamespace { app_id: s("x") }).is_err());
}

#[test]
fn unregister_purges_and_counts() {
    let mut a = adapter();
    register(&mut a, "app1", "S1");
    register(&mut a, "app1", "S2");
    join(&mut a, "app1", "S1", "room").unwrap();
    let left = a
        .unregister_connection(RemoveSocket { app_id: s("app1"), socket_id: s("S1"), socket_addr: 0 })
        .unwrap();
    assert_eq!(left, 1);
    assert_eq!(
        a.leave_channel(RemoveFromChannel { app_id: s("app1"), channel: s("room"), socket_id: s("S2") }),
        Ok(0)
    );
    let ns = a.get_namespace(GetNamespace { app_id: s("app1") }).unwrap();
    assert_eq!(ns.get_sockets(GetSockets), vec![s("S2")]);
}

#[test]
fn configure_adds_namespaces() {
    let mut a: LocalAdapter<u32> = LocalAdapter::new();
    assert!(a.get_namespace(GetNamespace { app_id: s("app1") }).is_err());
    a.configure(&vec![config("alpha"), config("beta"), config("alpha")]);
    assert!(a.get_namespace(GetNamespace { app_id: s("alpha") }).is_ok());
    assert!(a.get_namespace(GetNamespace { app_id: s("beta") }).is_ok());
    assert!(a.get_namespace(GetNamespace { app_id: s("app1") }).is_err());
}

#[test]
fn public_channel_manager_forwards() {
    let mut a = adapter();
    let j = |id: &str| Join { app_id: s("app1"), channel: s("room"), socket_id: s(id) };
    assert_eq!(PublicChannelManager::join(&mut a, j("x")), Ok(1));
    assert_eq!(PublicChannelManager::join(&mut a, j("y")), Ok(2));
    let l = Leave { app_id: s("app1"), channel: s("room"), socket_id: s("x") };
    assert_eq!(PublicChannelManager::leave(&mut a, l), Ok(1));
    let bad = Join { app_id: s("zz"), channel: s("room"), socket_id: s("x") };
    assert_eq!(PublicChannelManager::join(&mut a, bad), Err(AdapterError::AppNotFound));
}

#[test]
fn true_default_is_true() {
    assert!(true_());
}

#[test]
fn issued_socket_ids_are_distinct() {
    let mut a = adapter();
    let x = a.issue_socket_id(&s("app1")).unwrap();
    let y = a.issue_socket_id(&s("app2")).unwrap();
    assert_ne!(x, y);
    assert!(x.contains('.'));
}

#[test]
fn connect_to_unknown_app_fails() {
    let mut a = adapter();
    assert_eq!(a.issue_socket_id(&s("nope")), Err(AdapterError::AppNotFound));
}

#[test]
fn started_namespaces_are_empty_and_own_their_app() {
    let a = adapter();
    for app in ["app1", "app2"] {
        let ns = a.get_namespace(GetNamespace { app_id: s(app) }).unwrap();
        assert_eq!(ns.app_id(), app);
        assert!(ns.get_sockets(GetSockets).is_empty());
        assert_eq!(ns.total_count(), 0);
    }
}
