//! Errors of the server and the body that answers a failed request.

use vstd::prelude::*;
use crate::text::text;

verus! {

/// The body of an error answer: a machine-readable code and a message.
#[derive(Clone, Debug, PartialEq, Eq)]
pub struct ResponseError {
    pub code: String,
    pub message: String,
}

/// Why the server refused or failed a request.
#[derive(Clone, Debug, PartialEq, Eq)]
pub enum ServerError {
    InvalidJson(String),
    InternalError(String),
    InvalidParams(String),
}

/// The HTTP status that answers an error.
pub open spec fn status_of(e: ServerError) -> u16 {
    match e {
        ServerError::InvalidJson(_) => 400,
        ServerError::InternalError(_) => 500,
        ServerError::InvalidParams(_) => 400,
    }
}

/// The code that names an error in the answer's body.
pub open spec fn code_of(e: ServerError) -> Seq<char> {
    match e {
        ServerError::InvalidJson(_) => "INVALID_JSON"@,
        ServerError::InternalError(_) => "INTERNAL_ERROR"@,
        ServerError::InvalidParams(_) => "INVALID_PARAMS"@,
    }
}

/// The message an error carries.
pub open spec fn message_of(e: ServerError) -> Seq<char> {
    match e {
        ServerError::InvalidJson(m) => m@,
        ServerError::InternalError(m) => m@,
        ServerError::InvalidParams(m) => m@,
    }
}

/// How an error reads.
pub open spec fn display_of(e: ServerError) -> Seq<char> {
    match e {
        ServerError::InvalidJson(m) => "ServerError: Invalid JSON: "@ + m@,
        ServerError::InternalError(m) => "ServerError: Internal error: "@ + m@,
        ServerError::InvalidParams(m) => "ServerError: Invalid params: "@ + m@,
    }
}

impl ServerError {
    /// The message this error carries.
    pub fn message(&self) -> (m: &String)
        ensures
            m@ == message_of(*self),
    {
        match self {
            ServerError::InvalidJson(m) => m,
            ServerError::InternalError(m) => m,
            ServerError::InvalidParams(m) => m,
        }
    }

    /// The HTTP status that answers this error: 400 for a bad request, 500
    /// for a failure of the server.
    pub fn status_code(&self) -> (s: u16)
        ensures
            s == status_of(*self),
    {
        match self {
            ServerError::InvalidJson(_) => 400,
            ServerError::InternalError(_) => 500,
            ServerError::InvalidParams(_) => 400,
        }
    }

    /// The status and the body of the answer to this error.
    pub fn response_parts(&self) -> (r: (u16, ResponseError))
        ensures
            r.0 == status_of(*self),
            r.1.code@ == code_of(*self),
            r.1.message@ == message_of(*self),
    {
        let code = match self {
            ServerError::InvalidJson(_) => text("INVALID_JSON"),
            ServerError::InternalError(_) => text("INTERNAL_ERROR"),
            ServerError::InvalidParams(_) => text("INVALID_PARAMS"),
        };
        (self.status_code(), ResponseError { code, message: self.message().clone() })
    }

    /// The text of this error, as it is shown to a person.
    pub fn to_display_string(&self) -> (s: String)
        ensures
            s@ == display_of(*self),
    {
        match self {
            ServerError::InvalidJson(m) => text("ServerError: Invalid JSON: ").concat(m.as_str()),
            ServerError::InternalError(m) => text("ServerError: Internal error: ").concat(m.as_str()),
            ServerError::InvalidParams(m) => text("ServerError: Invalid params: ").concat(m.as_str()),
        }
    }
}

} // verus!
