//! The errors the service answers with, and the RPC status each one maps to.

use vstd::prelude::*;
use vstd::string::*;

verus! {

/// Why a request failed.
#[derive(Clone, Debug)]
pub enum ServiceError {
    /// The request itself cannot be served.
    InvalidRequest(String),
    /// Something inside the service failed.
    Internal(String),
}

/// The RPC status codes the service answers with.
#[derive(Clone, Copy, Debug, PartialEq, Eq, Structural)]
pub enum RpcCode {
    InvalidArgument,
    Internal,
}

/// An RPC status: a code and a message.
#[derive(Clone, Debug)]
pub struct RpcStatus {
    pub code: RpcCode,
    pub message: String,
}

/// The status code that answers each error.
pub open spec fn status_code_of(err: ServiceError) -> RpcCode {
    match err {
        ServiceError::InvalidRequest(_) => RpcCode::InvalidArgument,
        ServiceError::Internal(_) => RpcCode::Internal,
    }
}

/// The message an error carries.
pub open spec fn message_of(err: ServiceError) -> Seq<char> {
    match err {
        ServiceError::InvalidRequest(m) => m@,
        ServiceError::Internal(m) => m@,
    }
}

/// The text an error is displayed as: a prefix naming its kind, then its message.
pub open spec fn display_of(err: ServiceError) -> Seq<char> {
    match err {
        ServiceError::InvalidRequest(m) => "invalid request: "@ + m@,
        ServiceError::Internal(m) => "internal failure: "@ + m@,
    }
}

impl ServiceError {
    /// The RPC status this error is answered with: an invalid request is
    /// `InvalidArgument`, an internal failure is `Internal`, and the status
    /// carries the error's message unchanged.
    pub fn into_status(self) -> (status: RpcStatus)
        ensures
            status.code == status_code_of(self),
            status.message@ == message_of(self),
    {
        match self {
            ServiceError::InvalidRequest(msg) => RpcStatus { code: RpcCode::InvalidArgument, message: msg },
            ServiceError::Internal(msg) => RpcStatus { code: RpcCode::Internal, message: msg },
        }
    }

    /// The human-readable text of this error.
    pub fn display_text(&self) -> (text: String)
        ensures
            text@ == display_of(*self),
    {
        match self {
            ServiceError::InvalidRequest(msg) => {
                let mut text = String::from_str("invalid request: ");
                text.append(msg.as_str());
                text
            },
            ServiceError::Internal(msg) => {
                let mut text = String::from_str("internal failure: ");
                text.append(msg.as_str());
                text
            },
        }
    }
}

} // verus!
