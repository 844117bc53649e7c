use crate::message::{PusherMessage, SentPusherMessage};
use vstd::prelude::*;

verus! {

/// The activity timeout, in seconds, announced to each new connection. The
/// core does not enforce it.
pub const ACTIVITY_TIMEOUT: u64 = 120;

/// Where a connection stands in the protocol. A connection with channels
/// joined is `Established` too: its channels live in the namespace.
#[derive(Clone, Copy, Debug, PartialEq, Eq, Structural)]
pub enum ConnectionState {
    Connecting,
    Established,
    Closed,
}

/// A frame the connection sends to its client on its own account.
#[derive(Debug)]
pub enum Outbound {
    ConnectionEstablished { socket_id: String, activity_timeout: u64 },
    Pong,
    SubscriptionSucceeded,
    Unsubscribed,
}

/// What the connection does in answer to one inbound frame. `join` names a
/// channel to register this socket and join it to, `leave` one to take it
/// out of; `reply` is sent to the client once those are done.
pub struct Reaction {
    pub reply: Option<Outbound>,
    pub join: Option<String>,
    pub leave: Option<String>,
}

/// An inbound protocol frame, handed to its connection.
pub struct OnMessage {
    pub message: PusherMessage,
}

/// A broadcast frame, handed to a connection for delivery to its client.
pub struct OnPusherMessage {
    pub message: SentPusherMessage,
}

/// The state of one client connection: its socket id once established, its
/// application, and the handle it reaches the adapter by.
pub struct WS<A> {
    id: Option<String>,
    app_id: Option<String>,
    local_adapter: A,
    state: ConnectionState,
}

/// The channel an inbound frame names in its `data`, if any.
pub open spec fn frame_channel(m: PusherMessage) -> Option<Seq<char>> {
    match m.data {
        Some(d) => match d.channel {
            Some(c) => Some(c@),
            None => None,
        },
        None => None,
    }
}

/// Whether `o` holds a string with the text `t`, or both are absent.
pub open spec fn text_is(o: Option<String>, t: Option<Seq<char>>) -> bool {
    match (o, t) {
        (Some(s), Some(x)) => s@ == x,
        (None, None) => true,
        _ => false,
    }
}

impl<A> WS<A> {
    /// The state of the connection.
    pub closed spec fn state(&self) -> ConnectionState {
        self.state
    }

    /// The handle this connection reaches the adapter by.
    pub closed spec fn adapter(&self) -> A {
        self.local_adapter
    }

    /// The socket id, once the connection is established.
    pub closed spec fn socket_id(&self) -> Option<Seq<char>> {
        match self.id {
            Some(s) => Some(s@),
            None => None,
        }
    }

    /// The application the connection belongs to.
    pub closed spec fn app(&self) -> Option<Seq<char>> {
        match self.app_id {
            Some(s) => Some(s@),
            None => None,
        }
    }

    /// A socket id is held exactly when the connection has been established.
    pub closed spec fn wf(&self) -> bool {
        (self.state == ConnectionState::Connecting) == (self.id is None)
    }

    /// A new connection of application `app_id`, not yet established.
    pub fn new(local_adapter: A, app_id: String) -> (r: Self)
        ensures
            r.wf(),
            r.state() == ConnectionState::Connecting,
            r.app() == Some(app_id@),
            r.socket_id() is None,
            r.adapter() == local_adapter,
    {
        WS { id: None, app_id: Some(app_id), local_adapter, state: ConnectionState::Connecting }
    }

    /// The socket id, once established.
    pub fn id(&self) -> (r: &Option<String>)
        ensures
            text_is(*r, self.socket_id()),
    {
        &self.id
    }

    /// The handle this connection reaches the adapter by.
    pub fn local_adapter(&self) -> (r: &A)
        ensures
            *r == self.adapter(),
    {
        &self.local_adapter
    }

    /// The application id.
    pub fn app_id(&self) -> (r: &Option<String>)
        ensures
            text_is(*r, self.app()),
    {
        &self.app_id
    }

    /// Accepts the connection under `socket_id`, which the adapter issued: the
    /// connection is established with that id, and the connection-established
    /// frame carrying it is returned. On a connection already accepted,
    /// nothing happens.
    pub fn started(&mut self, socket_id: String) -> (r: Option<Outbound>)
        requires
            old(self).wf(),
        ensures
            final(self).wf(),
            final(self).app() == old(self).app(),
            final(self).adapter() == old(self).adapter(),
            old(self).state() == ConnectionState::Connecting ==> {
                &&& final(self).state() == ConnectionState::Established
                &&& final(self).socket_id() == Some(socket_id@)
                &&& r matches Some(Outbound::ConnectionEstablished { socket_id: sent, activity_timeout })
                &&& sent@ == socket_id@
                &&& activity_timeout == ACTIVITY_TIMEOUT
            },
            old(self).state() != ConnectionState::Connecting ==> r is None && final(self).state()
                == old(self).state() && final(self).socket_id() == old(self).socket_id(),
    {
        if self.state != ConnectionState::Connecting {
            return None;
        }
        self.id = Some(socket_id.clone());
        self.state = ConnectionState::Established;
        Some(Outbound::ConnectionEstablished { socket_id, activity_timeout: ACTIVITY_TIMEOUT })
    }

    /// Handles one inbound frame on an established connection: a ping gets a
    /// pong; a subscribe naming a channel joins this socket to it, then gets
    /// its acknowledgement; an unsubscribe gets its acknowledgement and takes
    /// this socket out of the channel it names. Any other event, a subscribe
    /// naming no channel, or a frame on a connection that is not established,
    /// gets no reaction. The connection's state does not change.
    pub fn handle(&self, msg: OnMessage) -> (r: Reaction)
        ensures
            self.state() != ConnectionState::Established ==> r.reply is None && r.join is None
                && r.leave is None,
            self.state() == ConnectionState::Established ==> {
                let ev = msg.message.event@;
                let ch = frame_channel(msg.message);
                if ev == "pusher:ping"@ {
                    r.reply matches Some(Outbound::Pong) && r.join is None && r.leave is None
                } else if ev == "pusher:subscribe"@ {
                    if ch is Some {
                        r.reply matches Some(Outbound::SubscriptionSucceeded) && text_is(r.join, ch)
                            && r.leave is None
                    } else {
                        r.reply is None && r.join is None && r.leave is None
                    }
                } else if ev == "pusher:unsubscribe"@ {
                    r.reply matches Some(Outbound::Unsubscribed) && r.join is None && text_is(r.leave, ch)
                } else {
                    r.reply is None && r.join is None && r.leave is None
                }
            },
    {
        let none = Reaction { reply: None, join: None, leave: None };
        if self.state != ConnectionState::Established {
            return none;
        }
        let OnMessage { message } = msg;
        let PusherMessage { event, data, .. } = message;
        let channel = match data {
            Some(d) => d.channel,
            None => None,
        };
        if event == "pusher:ping".to_string() {
            Reaction { reply: Some(Outbound::Pong), join: None, leave: None }
        } else if event == "pusher:subscribe".to_string() {
            match channel {
                Some(c) => Reaction { reply: Some(Outbound::SubscriptionSucceeded), join: Some(c), leave: None },
                None => none,
            }
        } else if event == "pusher:unsubscribe".to_string() {
            Reaction { reply: Some(Outbound::Unsubscribed), join: None, leave: channel }
        } else {
            none
        }
    }

    /// Closes the connection. The first close of an established connection
    /// returns its socket id, to be unregistered from its application once;
    /// every other close returns nothing.
    pub fn stopped(&mut self) -> (r: Option<String>)
        requires
            old(self).wf(),
        ensures
            final(self).wf(),
            final(self).state() == ConnectionState::Closed || old(self).state() == ConnectionState::Connecting
                && final(self).state() == ConnectionState::Connecting,
            final(self).app() == old(self).app(),
            final(self).adapter() == old(self).adapter(),
            final(self).socket_id() == old(self).socket_id(),
            old(self).state() == ConnectionState::Established ==> text_is(r, old(self).socket_id()) && r is Some,
            old(self).state() != ConnectionState::Established ==> r is None,
    {
        if self.state == ConnectionState::Established {
            self.state = ConnectionState::Closed;
            match &self.id {
                Some(id) => Some(id.clone()),
                None => None,
            }
        } else {
            None
        }
    }
}

impl Outbound {
    /// The event name this frame carries on the wire.
    pub fn event_name(&self) -> (r: String)
        ensures
            r@ == match self {
                Outbound::ConnectionEstablished { .. } => "pusher:connection_established"@,
                Outbound::Pong => "pusher:pong"@,
                Outbound::SubscriptionSucceeded => "pusher_internal:subscription_succeeded"@,
                Outbound::Unsubscribed => "pusher_internal:unsubscribed"@,
            },
    {
        match self {
            Outbound::ConnectionEstablished { .. } => "pusher:connection_established".to_string(),
            Outbound::Pong => "pusher:pong".to_string(),
            Outbound::SubscriptionSucceeded => "pusher_internal:subscription_succeeded".to_string(),
            Outbound::Unsubscribed => "pusher_internal:unsubscribed".to_string(),
        }
    }
}

} // verus!
