use pusher_core::message::{AnyValue, PusherApiMessage};
use pusher_core::namespace::{
    AddSocket, AddToChannel, BroadcastMessage, Channel, GetSockets, Namespace, RemoveFromChannel,
    RemoveSocket,
};

fn s(x: &str) -> String {
    x.to_string()
}

fn join(ns: &mut Namespace<u32>, id: &str, ch: &str) -> usize {
    ns.add_to_channel(AddToChannel { socket_id: s(id), channel: s(ch) })
}

fn leave(ns: &mut Namespace<u32>, id: &str, ch: &str) -> usize {
    ns.remove_from_channel(RemoveFromChannel { socket_id: s(id), channel: Channel::Ch(s(ch)) })
}

fn sorted(mut v: Vec<String>) -> Vec<String> {
    v.sort();
    v
}

fn publish_request(channel: &str, socket_id: Option<&str>) -> PusherApiMessage {
    PusherApiMessage {
        name: Some(s("msg")),
        data: Some(s("hi")),
        channel: Some(s(channel)),
        channels: Some(vec![s(channel)]),
        socket_id: socket_id.map(s),
        info: None,
    }
}

#[test]
fn add_socket_registers_and_overwrites() {
    let mut ns: Namespace<u32> = Namespace::new(s("app1"));
    ns.add_socket(AddSocket { socket_id: s("1.1"), socket_addr: 7 });
    ns.add_socket(AddSocket { socket_id: s("1.1"), socket_addr: 9 });
    ns.add_socket(AddSocket { socket_id: s("2.2"), socket_addr: 3 });
    assert_eq!(sorted(ns.get_sockets(GetSockets)), vec![s("1.1"), s("2.2")]);
    assert_eq!(ns.handle_of(&s("1.1")), Some(&9));
    assert_eq!(ns.handle_of(&s("2.2")), Some(&3));
    assert_eq!(ns.handle_of(&s("3.3")), None);
    assert_eq!(ns.app_id(), "app1");
}

#[test]
fn join_counts_members_once() {
    let mut ns: Namespace<u32> = Namespace::new(s("app1"));
    assert_eq!(join(&mut ns, "a", "room"), 1);
    assert_eq!(join(&mut ns, "b", "room"), 2);
    assert_eq!(join(&mut ns, "a", "room"), 2);
    assert_eq!(join(&mut ns, "a", "other"), 1);
}

#[test]
fn join_does_not_need_registration() {
    let mut ns: Namespace<u32> = Namespace::new(s("app1"));
    assert_eq!(join(&mut ns, "ghost", "room"), 1);
    assert!(ns.get_sockets(GetSockets).is_empty());
}

#[test]
fn join_then_leave_leaves_room_empty() {
    let mut ns: Namespace<u32> = Namespace::new(s("app1"));
    assert_eq!(join(&mut ns, "s", "room"), 1);
    assert_eq!(leave(&mut ns, "s", "room"), 0);
}

#[test]
fn leave_unknown_channel_is_empty() {
    let mut ns: Namespace<u32> = Namespace::new(s("app1"));
    assert_eq!(leave(&mut ns, "s", "nowhere"), 0);
    assert_eq!(ns.total_count(), 0);
}

#[test]
fn leave_list_returns_total_of_all_channels() {
    let mut ns: Namespace<u32> = Namespace::new(s("app1"));
    join(&mut ns, "a", "one");
    join(&mut ns, "b", "one");
    join(&mut ns, "a", "two");
    join(&mut ns, "c", "three");
    let r = ns.remove_from_channel(RemoveFromChannel {
        socket_id: s("a"),
        channel: Channel::Vec(vec![s("one"), s("two"), s("missing")]),
    });
    assert_eq!(r, 2);
    assert_eq!(ns.total_count(), 2);
}

#[test]
fn remove_socket_purges_both_channels() {
    let mut ns: Namespace<u32> = Namespace::new(s("app1"));
    ns.add_socket(AddSocket { socket_id: s("s"), socket_addr: 1 });
    ns.add_socket(AddSocket { socket_id: s("t"), socket_addr: 2 });
    join(&mut ns, "s", "one");
    join(&mut ns, "s", "two");
    join(&mut ns, "t", "two");
    assert_eq!(ns.remove_socket(RemoveSocket { socket_id: s("s"), socket_addr: 1 }), 1);
    assert_eq!(ns.get_sockets(GetSockets), vec![s("t")]);
    let r = ns.remove_from_channel(RemoveFromChannel {
        socket_id: s("s"),
        channel: Channel::Vec(vec![s("one"), s("two")]),
    });
    assert_eq!(r, 1);
    assert_eq!(join(&mut ns, "x", "one"), 1);
    assert_eq!(join(&mut ns, "x", "two"), 2);
}

#[test]
fn remove_unknown_socket_is_a_no_op() {
    let mut ns: Namespace<u32> = Namespace::new(s("app1"));
    ns.add_socket(AddSocket { socket_id: s("s"), socket_addr: 1 });
    join(&mut ns, "s", "room");
    assert_eq!(ns.remove_socket(RemoveSocket { socket_id: s("zzz"), socket_addr: 0 }), 1);
    assert_eq!(ns.total_count(), 1);
}

#[test]
fn readd_after_remove() {
    let mut ns: Namespace<u32> = Namespace::new(s("app1"));
    ns.add_socket(AddSocket { socket_id: s("s"), socket_addr: 1 });
    ns.remove_socket(RemoveSocket { socket_id: s("s"), socket_addr: 1 });
    assert!(ns.get_sockets(GetSockets).is_empty());
    ns.add_socket(AddSocket { socket_id: s("s"), socket_addr: 4 });
    assert_eq!(ns.handle_of(&s("s")), Some(&4));
}

#[test]
fn net_joins_minus_leaves() {
    let mut ns: Namespace<u32> = Namespace::new(s("app1"));
    join(&mut ns, "a", "room");
    join(&mut ns, "b", "room");
    leave(&mut ns, "a", "room");
    join(&mut ns, "c", "room");
    join(&mut ns, "d", "room");
    assert_eq!(leave(&mut ns, "b", "room"), 2);
}

#[test]
fn broadcast_reaches_all_registered_sockets() {
    let mut ns: Namespace<u32> = Namespace::new(s("app1"));
    for id in ["S1", "S2", "S3"] {
        ns.add_socket(AddSocket { socket_id: s(id), socket_addr: 0 });
    }
    join(&mut ns, "S1", "room");
    join(&mut ns, "S2", "room");
    let b = ns.broadcast(BroadcastMessage(publish_request("room", None)));
    assert_eq!(sorted(b.recipients), vec![s("S1"), s("S2"), s("S3")]);
    assert_eq!(b.frame.event, Some(s("msg")));
    assert_eq!(b.frame.channel, Some(s("room")));
    assert!(matches!(b.frame.data, Some(AnyValue::String(ref d)) if d == "hi"));
}

#[test]
fn broadcast_skips_excluded_socket() {
    let mut ns: Namespace<u32> = Namespace::new(s("app1"));
    ns.add_socket(AddSocket { socket_id: s("S1"), socket_addr: 0 });
    ns.add_socket(AddSocket { socket_id: s("S2"), socket_addr: 0 });
    let b = ns.broadcast(BroadcastMessage(publish_request("room", Some("S1"))));
    assert_eq!(b.recipients, vec![s("S2")]);
}

#[test]
fn broadcast_on_empty_namespace_reaches_nobody() {
    let ns: Namespace<u32> = Namespace::new(s("app1"));
    let b = ns.broadcast(BroadcastMessage(publish_request("room", None)));
    assert!(b.recipients.is_empty());
}
