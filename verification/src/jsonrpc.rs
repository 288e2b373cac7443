//! The shapes of JSON-RPC 2.0 that the protocol is spoken in.

use vstd::prelude::*;

verus! {

/// What went wrong, as the number in an error response says it.
#[derive(Clone, Copy, Debug, PartialEq, Eq, Structural, Hash)]
pub enum ErrorCode {
    ParseError,
    InvalidRequest,
    MethodNotFound,
    InvalidParams,
    InternalError,
    ServerError(i64),
}

impl ErrorCode {
    /// The number that stands for the code on the wire.
    pub open spec fn wire_code(self) -> int {
        match self {
            ErrorCode::ParseError => -32700,
            ErrorCode::InvalidRequest => -32600,
            ErrorCode::MethodNotFound => -32601,
            ErrorCode::InvalidParams => -32602,
            ErrorCode::InternalError => -32603,
            ErrorCode::ServerError(code) => code as int,
        }
    }

    /// The code that a number of the wire stands for.
    pub open spec fn of_wire_code(code: i64) -> ErrorCode {
        if code == -32700 {
            ErrorCode::ParseError
        } else if code == -32600 {
            ErrorCode::InvalidRequest
        } else if code == -32601 {
            ErrorCode::MethodNotFound
        } else if code == -32602 {
            ErrorCode::InvalidParams
        } else if code == -32603 {
            ErrorCode::InternalError
        } else {
            ErrorCode::ServerError(code)
        }
    }

    pub fn code(&self) -> (c: i64)
        ensures
            c == self.wire_code(),
    {
        match self {
            ErrorCode::ParseError => -32700,
            ErrorCode::InvalidRequest => -32600,
            ErrorCode::MethodNotFound => -32601,
            ErrorCode::InvalidParams => -32602,
            ErrorCode::InternalError => -32603,
            ErrorCode::ServerError(code) => *code,
        }
    }

    pub fn from_code(code: i64) -> (c: ErrorCode)
        ensures
            c == Self::of_wire_code(code),
    {
        if code == -32700 {
            ErrorCode::ParseError
        } else if code == -32600 {
            ErrorCode::InvalidRequest
        } else if code == -32601 {
            ErrorCode::MethodNotFound
        } else if code == -32602 {
            ErrorCode::InvalidParams
        } else if code == -32603 {
            ErrorCode::InternalError
        } else {
            ErrorCode::ServerError(code)
        }
    }

    /// Every number of the wire names a code that is written as that
    /// number.
    pub proof fn lemma_code_round_trip(code: i64)
        ensures
            Self::of_wire_code(code).wire_code() == code,
    {
    }
}

/// The error of an error response.
#[derive(Clone, Debug, PartialEq)]
pub struct Error {
    pub code: ErrorCode,
    pub message: String,
    pub data: Option<serde_json::Value>,
}

impl Error {
    /// The error for parameters that do not have the shape that the
    /// method asks for.
    pub fn invalid_params(message: String) -> (e: Error)
        ensures
            e == (Error { code: ErrorCode::InvalidParams, message, data: None }),
    {
        Error { code: ErrorCode::InvalidParams, message, data: None }
    }
}

/// The identifier of a request. This client numbers its own requests; a
/// server may send a number or a string, which goes back as it came.
#[derive(Clone, Debug, PartialEq, Eq, Hash)]
pub enum Id {
    Null,
    Num(u64),
    Str(String),
}

/// The parameters of a request or notification.
#[derive(Debug, PartialEq)]
pub enum Params {
    /// No parameters.
    Absent,
    /// Parameters by place.
    Array(Vec<serde_json::Value>),
    /// Parameters by name.
    Object(serde_json::Map<String, serde_json::Value>),
}

/// What an incoming message is, by the members it has.
#[derive(Clone, Copy, Debug, PartialEq, Eq, Structural, Hash)]
pub enum MessageKind {
    /// A request of the server, which expects a response.
    Request,
    /// A notification of the server.
    Notification,
    /// The response to a request of this client.
    Response,
}

/// Tells what an incoming message is: one with `id` and `method` is a
/// request, one with `method` alone a notification, one with `id` alone
/// a response, and one with neither is no message of the protocol.
pub fn classify(has_id: bool, has_method: bool) -> (kind: Option<MessageKind>)
    ensures
        kind == (if has_method {
            if has_id {
                Some(MessageKind::Request)
            } else {
                Some(MessageKind::Notification)
            }
        } else if has_id {
            Some(MessageKind::Response)
        } else {
            None
        }),
{
    if has_method {
        if has_id {
            Some(MessageKind::Request)
        } else {
            Some(MessageKind::Notification)
        }
    } else if has_id {
        Some(MessageKind::Response)
    } else {
        None
    }
}

} // verus!
