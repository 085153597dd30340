//! Routing what the app server sends: replies to pending requests (with
//! their errors) and notifications to subscribers.
use vstd::prelude::*;
use crate::parser::opt_text;
use crate::text::owned;

verus! {

/// The fields of an incoming JSON-RPC message that routing reads; each is
/// `None` where the field is missing or of another type.
#[derive(Debug, Clone, PartialEq)]
pub struct IncomingMessage {
    /// `id`, where it is an unsigned integer.
    pub id: Option<u64>,
    pub method: Option<String>,
    /// Whether there is an `error` field.
    pub has_error: bool,
    /// `error.code`.
    pub error_code: Option<i64>,
    /// `error.message`.
    pub error_message: Option<String>,
}

/// An error the app server answered a request with.
#[derive(Debug, Clone, PartialEq)]
pub struct RpcFailure {
    pub code: Option<i64>,
    pub message: String,
}

/// Where an incoming message goes.
#[derive(Debug, Clone, PartialEq)]
pub enum MessageRoute {
    /// The answer to request `id`: its error, or (with `None`) its result.
    Reply { id: u64, failure: Option<RpcFailure> },
    /// A notification for the subscribers.
    Notify { method: String },
    /// Neither: dropped.
    Drop,
}

pub open spec fn route_spec(m: IncomingMessage) -> (int, Option<(Option<i64>, Seq<char>)>, Option<Seq<char>>) {
    match m.id {
        Some(id) => (
            0,
            if m.has_error {
                Some(
                    (
                        m.error_code,
                        match opt_text(m.error_message) {
                            Some(t) => t,
                            None => "unknown app-server error"@,
                        },
                    ),
                )
            } else {
                None
            },
            None,
        ),
        None => match opt_text(m.method) {
            Some(method) => (1, None, Some(method)),
            None => (2, None, None),
        },
    }
}

pub open spec fn route_view(r: MessageRoute) -> (int, Option<(Option<i64>, Seq<char>)>, Option<Seq<char>>) {
    match r {
        MessageRoute::Reply { id, failure } => (
            0,
            match failure {
                Some(f) => Some((f.code, f.message@)),
                None => None,
            },
            None,
        ),
        MessageRoute::Notify { method } => (1, None, Some(method@)),
        MessageRoute::Drop => (2, None, None),
    }
}

/// A message with an id answers that request, with its error when it has
/// one (the message defaulting to "unknown app-server error"); a message
/// without an id but with a method is a notification; anything else is
/// dropped.
pub fn route_message(message: IncomingMessage) -> (r: MessageRoute)
    ensures
        route_view(r) == route_spec(message),
        message.id matches Some(id) ==> r matches MessageRoute::Reply { id: rid, .. } && rid == id,
{
    match message.id {
        Some(id) => {
            let failure = if message.has_error {
                let text = match message.error_message {
                    Some(t) => t,
                    None => owned("unknown app-server error"),
                };
                Some(RpcFailure { code: message.error_code, message: text })
            } else {
                None
            };
            MessageRoute::Reply { id, failure }
        },
        None => match message.method {
            Some(method) => MessageRoute::Notify { method },
            None => MessageRoute::Drop,
        },
    }
}

} // verus!
