//! The messages exchanged over a WebSocket connection and the subprotocol
//! names that select their framing.
use vstd::prelude::*;
use crate::text::{eq_ignore_ascii_case, str_eq_ignore_ascii_case};

verus! {

/// A JSON value carried through messages unchanged.
#[verifier::external_type_specification]
#[verifier::external_body]
pub struct ExJsonValue(serde_json::Value);

/// `Clone` of a JSON value (derived in serde_json): the copy equals the value cloned.
pub assume_specification[ <serde_json::Value as Clone>::clone ](v: &serde_json::Value) -> (res: serde_json::Value)
    ensures
        res == *v,
;

/// Subprotocol for MessagePack frames.
pub const WS_SUBPROTOCOL_MSGPACK_V1: &'static str = "chs.v1.msgpack";
/// Subprotocol for JSON frames.
pub const WS_SUBPROTOCOL_JSON_V1: &'static str = "chs.v1.json";
/// Older subprotocol name for MessagePack frames.
pub const WS_SUBPROTOCOL_MSGPACK_LEGACY: &'static str = "msgpack";
/// Older subprotocol name for JSON frames.
pub const WS_SUBPROTOCOL_JSON_LEGACY: &'static str = "json";

/// Whether `value` names the MessagePack subprotocol, in either spelling, up to ASCII case.
pub fn is_msgpack_subprotocol(value: &str) -> (res: bool)
    ensures
        res == (eq_ignore_ascii_case(value@, WS_SUBPROTOCOL_MSGPACK_V1@)
            || eq_ignore_ascii_case(value@, WS_SUBPROTOCOL_MSGPACK_LEGACY@)),
{
    str_eq_ignore_ascii_case(value, WS_SUBPROTOCOL_MSGPACK_V1)
        || str_eq_ignore_ascii_case(value, WS_SUBPROTOCOL_MSGPACK_LEGACY)
}

/// Whether `value` names the JSON subprotocol, in either spelling, up to ASCII case.
pub fn is_json_subprotocol(value: &str) -> (res: bool)
    ensures
        res == (eq_ignore_ascii_case(value@, WS_SUBPROTOCOL_JSON_V1@)
            || eq_ignore_ascii_case(value@, WS_SUBPROTOCOL_JSON_LEGACY@)),
{
    str_eq_ignore_ascii_case(value, WS_SUBPROTOCOL_JSON_V1)
        || str_eq_ignore_ascii_case(value, WS_SUBPROTOCOL_JSON_LEGACY)
}

/// Who sent an event.
#[derive(Debug, Clone)]
pub struct EventActor {
    pub user_id: String,
    pub username: String,
    pub auth_type: String,
}

/// A message from a client.
#[derive(Debug)]
pub enum ClientMessage {
    Join { group: String },
    Leave { group: String },
    Event { group: String, event: String, payload: serde_json::Value },
    Direct { to_connection_id: String, event: String, payload: serde_json::Value },
    Ping { nonce: Option<String> },
}

/// A message from the server.
#[derive(Debug, Clone)]
pub enum ServerMessage {
    Connected { connection_id: String, actor: EventActor },
    Joined { group: String },
    Left { group: String },
    Event { group: String, event: String, payload: serde_json::Value, from: EventActor, timestamp: String },
    Direct {
        from_connection_id: String,
        event: String,
        payload: serde_json::Value,
        from: EventActor,
        timestamp: String,
    },
    Pong { nonce: Option<String> },
    Error { code: String, message: String },
}

} // verus!
