use crate::adapter::local_adapter::{AdapterError, AddToChannel, LocalAdapter, RemoveFromChannel};
use crate::namespace::{joined, left};
use vstd::prelude::*;

verus! {

/// Joins a socket to a public channel of an application.
pub struct Join {
    pub app_id: String,
    pub channel: String,
    pub socket_id: String,
}

/// Takes a socket out of a public channel of an application.
pub struct Leave {
    pub app_id: String,
    pub channel: String,
    pub socket_id: String,
}

/// Public channels: anyone may join, with no authorisation step.
pub struct PublicChannelManager;

impl PublicChannelManager {
    /// Joins the socket to the channel through the adapter; returns the
    /// channel's member count.
    pub fn join<H>(adapter: &mut LocalAdapter<H>, msg: Join) -> (r: Result<usize, AdapterError>)
        requires
            old(adapter).wf(),
        ensures
            final(adapter).wf(),
            final(adapter).apps() == old(adapter).apps(),
            r is Ok <==> old(adapter).apps().contains(msg.app_id@),
            r is Err ==> *final(adapter) == *old(adapter),
            forall|a: Seq<char>|
                old(adapter).apps().contains(a) && a != msg.app_id@ ==> #[trigger] final(adapter).namespace(a)
                    == old(adapter).namespace(a),
            r matches Ok(n) ==> joined(
                old(adapter).namespace(msg.app_id@),
                final(adapter).namespace(msg.app_id@),
                msg.channel@,
                msg.socket_id@,
            ) && n == final(adapter).namespace(msg.app_id@).members(msg.channel@).len(),
    {
        adapter.join_channel(AddToChannel { app_id: msg.app_id, channel: msg.channel, socket_id: msg.socket_id })
    }

    /// Takes the socket out of the channel through the adapter; returns the
    /// channel's remaining member count.
    pub fn leave<H>(adapter: &mut LocalAdapter<H>, msg: Leave) -> (r: Result<usize, AdapterError>)
        requires
            old(adapter).wf(),
        ensures
            final(adapter).wf(),
            final(adapter).apps() == old(adapter).apps(),
            r is Ok <==> old(adapter).apps().contains(msg.app_id@),
            r is Err ==> *final(adapter) == *old(adapter),
            forall|a: Seq<char>|
                old(adapter).apps().contains(a) && a != msg.app_id@ ==> #[trigger] final(adapter).namespace(a)
                    == old(adapter).namespace(a),
            r matches Ok(n) ==> left(
                old(adapter).namespace(msg.app_id@),
                final(adapter).namespace(msg.app_id@),
                msg.channel@,
                msg.socket_id@,
            ) && n == final(adapter).namespace(msg.app_id@).members(msg.channel@).len(),
    {
        adapter.leave_channel(RemoveFromChannel { app_id: msg.app_id, channel: msg.channel, socket_id: msg.socket_id })
    }
}

} // verus!
