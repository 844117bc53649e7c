use std::collections::HashMap;
use vstd::prelude::*;

verus! {

/// A JSON value of serde_json, carried through untouched.
#[verifier::external_type_specification]
#[verifier::external_body]
pub struct ExValue(serde_json::Value);

/// A payload that is either a plain string or an open key-value object.
pub enum AnyValue {
    String(String),
    Object(HashMap<String, serde_json::Value>),
}

/// The `data` object of an inbound client frame: the known fields, and an
/// open bag for the fields that are not recognised.
pub struct MessageData {
    pub channel_data: Option<String>,
    pub channel: Option<String>,
    pub user_data: Option<String>,
    pub extra: HashMap<String, serde_json::Value>,
}

/// An inbound client frame, or a reply frame sent back to the client.
pub struct PusherMessage {
    pub channel: Option<String>,
    pub name: Option<String>,
    pub event: String,
    pub data: Option<MessageData>,
}

/// A publish request, as it comes in at the publish boundary.
pub struct PusherApiMessage {
    pub name: Option<String>,
    pub data: Option<String>,
    pub channel: Option<String>,
    pub channels: Option<Vec<String>>,
    pub socket_id: Option<String>,
    pub info: Option<PusherApiMessageInfo>,
}

/// The optional `info` part of a publish request.
pub struct PusherApiMessageInfo {
    pub user_count: Option<u64>,
    pub subscription_count: Option<u64>,
}

/// The frame delivered to a socket for a broadcast: `{event, channel, data}`.
pub struct SentPusherMessage {
    pub channel: Option<String>,
    pub event: Option<String>,
    pub data: Option<AnyValue>,
}

/// A websocket message: raw bytes or a protocol frame.
pub enum WebSocketMessage {
    ArrayBuffer(Vec<u8>),
    PusherMessage(PusherMessage),
}

/// A copy of an optional string.
pub fn copy_text(o: &Option<String>) -> (r: Option<String>)
    ensures
        r == *o,
{
    match o {
        Some(s) => Some(s.clone()),
        None => None,
    }
}

/// A copy of a list of strings.
pub fn copy_texts(v: &Vec<String>) -> (r: Vec<String>)
    ensures
        r@ == v@,
{
    let mut out: Vec<String> = Vec::new();
    let mut i: usize = 0;
    while i < v.len()
        invariant
            i <= v@.len(),
            out@ == v@.subrange(0, i as int),
        decreases v@.len() - i,
    {
        out.push(v[i].clone());
        i = i + 1;
    }
    assert(out@ =~= v@);
    out
}

/// Whether a broadcast frame is the one built for a publish request: its
/// event is the request's name, its channel the request's channel, and its
/// data the request's data as a plain string.
pub open spec fn frame_of(frame: SentPusherMessage, msg: PusherApiMessage) -> bool {
    &&& frame.event == msg.name
    &&& frame.channel == msg.channel
    &&& match msg.data {
        Some(d) => frame.data == Some(AnyValue::String(d)),
        None => frame.data is None,
    }
}

/// The broadcast frame for a publish request.
pub fn broadcast_frame(msg: &PusherApiMessage) -> (r: SentPusherMessage)
    ensures
        frame_of(r, *msg),
{
    let data = match &msg.data {
        Some(d) => Some(AnyValue::String(d.clone())),
        None => None,
    };
    SentPusherMessage { channel: copy_text(&msg.channel), event: copy_text(&msg.name), data }
}

} // verus!
