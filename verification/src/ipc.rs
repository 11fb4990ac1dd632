//! Messages of the daemon's control socket and the replies they get.

use vstd::prelude::*;
use vstd::string::StringExecFns;
use crate::text::{decimal, push_decimal, push_str};

verus! {

broadcast use vstd::string::group_string_axioms;

/// A configuration change: a key in dot notation and its new value as text.
#[derive(Debug, PartialEq, Eq)]
pub struct ConfigUpdate {
    pub key: String,
    pub value: String,
}

/// Requests a client sends to the daemon.
#[derive(Debug)]
pub enum IpcMessage {
    /// Change configuration values.
    UpdateConfig { updates: Vec<ConfigUpdate>, request_id: String },
    /// Reload the configuration file.
    ReloadConfig { request_id: String },
    /// Report the daemon's status.
    GetStatus { request_id: String },
    /// Report the daemon's statistics.
    GetStats { request_id: String },
    /// Shut the daemon down.
    Shutdown { request_id: String },
}

/// Replies of the daemon. `data` is JSON text.
#[derive(Debug, PartialEq, Eq)]
pub enum IpcResponse {
    Success { request_id: String, data: Option<String>, message: Option<String> },
    Error { request_id: String, code: u32, message: String, details: Option<String> },
}

/// The code of a request the daemon does not carry out yet.
pub const NOT_IMPLEMENTED: u32 = 501;

/// The reply to each request: none of them is carried out yet, so each gets a
/// "not implemented" error under its own request id; a configuration update also
/// says how many updates it asked for.
pub open spec fn reply_spec(request_id: Seq<char>, msg_kind: u8, n_updates: nat) -> (Seq<char>, Seq<char>, Option<Seq<char>>) {
    if msg_kind == 0 {
        (request_id, "Configuration updates not yet implemented"@, Some("Requested "@ + decimal(n_updates) + " updates"@))
    } else if msg_kind == 1 {
        (request_id, "Configuration reload not yet implemented"@, None)
    } else if msg_kind == 2 {
        (request_id, "Status reporting not yet implemented"@, None)
    } else if msg_kind == 3 {
        (request_id, "Stats reporting not yet implemented"@, None)
    } else {
        (request_id, "Shutdown not yet implemented"@, None)
    }
}

/// The kind of a request, and its id and number of updates.
pub open spec fn message_parts(m: IpcMessage) -> (Seq<char>, u8, nat) {
    match m {
        IpcMessage::UpdateConfig { updates, request_id } => (request_id@, 0, updates@.len()),
        IpcMessage::ReloadConfig { request_id } => (request_id@, 1, 0),
        IpcMessage::GetStatus { request_id } => (request_id@, 2, 0),
        IpcMessage::GetStats { request_id } => (request_id@, 3, 0),
        IpcMessage::Shutdown { request_id } => (request_id@, 4, 0),
    }
}

/// The reply to a request (see `reply_spec`).
pub fn process_message(message: IpcMessage) -> (r: IpcResponse)
    ensures
        ({
            let (id, kind, n) = message_parts(message);
            let (rid, text, details) = reply_spec(id, kind, n);
            r matches IpcResponse::Error { request_id, code, message, details: d } && request_id@ == rid && code
                == NOT_IMPLEMENTED && message@ == text && match (d, details) {
                (Some(x), Some(y)) => x@ == y,
                (None, None) => true,
                _ => false,
            }
        }),
{
    match message {
        IpcMessage::UpdateConfig { updates, request_id } => {
            let mut details = String::new();
            push_str(&mut details, "Requested ");
            push_decimal(&mut details, updates.len() as u64);
            push_str(&mut details, " updates");
            IpcResponse::Error {
                request_id,
                code: NOT_IMPLEMENTED,
                message: String::from_str("Configuration updates not yet implemented"),
                details: Some(details),
            }
        },
        IpcMessage::ReloadConfig { request_id } => IpcResponse::Error {
            request_id,
            code: NOT_IMPLEMENTED,
            message: String::from_str("Configuration reload not yet implemented"),
            details: None,
        },
        IpcMessage::GetStatus { request_id } => IpcResponse::Error {
            request_id,
            code: NOT_IMPLEMENTED,
            message: String::from_str("Status reporting not yet implemented"),
            details: None,
        },
        IpcMessage::GetStats { request_id } => IpcResponse::Error {
            request_id,
            code: NOT_IMPLEMENTED,
            message: String::from_str("Stats reporting not yet implemented"),
            details: None,
        },
        IpcMessage::Shutdown { request_id } => IpcResponse::Error {
            request_id,
            code: NOT_IMPLEMENTED,
            message: String::from_str("Shutdown not yet implemented"),
            details: None,
        },
    }
}

/// Every request is answered under its own request id.
pub proof fn lemma_reply_keeps_request_id(request_id: Seq<char>, kind: u8, n: nat)
    ensures
        reply_spec(request_id, kind, n).0 == request_id,
{
}

} // verus!
