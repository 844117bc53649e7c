use vstd::prelude::*;

verus! {

/// The value a boolean setting takes when the configuration leaves it out.
pub fn true_() -> (r: bool)
    ensures
        r,
{
    true
}

/// One application's configuration record. Only `id` is read by the core:
/// an adapter has a namespace for each configured id. The limits and flags
/// are carried, not enforced.
pub struct AppConfig {
    pub id: String,
    pub key: String,
    pub secret: Option<String>,
    pub max_connections: Option<u64>,
    pub enable_client_messages: bool,
    pub enabled: bool,
    pub max_backend_events_per_second: Option<u64>,
    pub max_client_events_per_second: Option<u64>,
    pub max_read_requests_per_minute: Option<u64>,
    pub webhooks: Vec<serde_json::Value>,
    pub max_presence_member_size_in_kb: Option<u64>,
    pub max_channel_name_length: Option<u64>,
    pub max_event_channel_at_once: Option<u64>,
    pub max_event_name_length: Option<u64>,
    pub max_event_payload_in_kb: Option<u64>,
    pub max_event_batch_size: Option<u64>,
    pub enable_user_authentication: bool,
    pub has_client_event_webhooks: bool,
    pub has_channel_occupied_webhooks: bool,
    pub has_channel_vacated_webhooks: bool,
    pub has_member_added_webhooks: bool,
    pub has_member_removed_webhooks: bool,
    pub has_cache_missed_webhooks: bool,
}

} // verus!
