//! State management and broadcast routing for a multi-tenant publish/subscribe
//! engine: per-application socket registries and channel membership, the
//! router from application id to namespace, and the per-connection protocol
//! state machine.

pub mod adapter;
pub mod app;
pub mod channel_managers;
pub mod message;
pub mod namespace;
pub mod utils;
pub mod ws_message;
