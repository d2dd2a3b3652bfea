//! What can go wrong while a request is served.
use vstd::prelude::*;

verus! {

/// A failure reported by the store or by the way to it: the connection
/// could not be had, the exchange broke, or the store refused the command.
#[derive(Debug, PartialEq)]
pub struct StoreError {
    /// The store's own description of the failure, when it gave one.
    pub detail: Option<String>,
    /// The full description of the failure.
    pub message: String,
}

/// The errors of the gateway.
#[derive(Debug, PartialEq)]
pub enum ApiError {
    /// No command name could be found in the request.
    NoCommand,
    /// The encoding header names an encoding other than base64.
    InvalidEncoding,
    /// The body is not what the endpoint takes.
    InvalidInput,
    /// The request carries no valid token.
    InvalidToken,
    /// The store, or the way to it, failed.
    RedisError(StoreError),
}

pub open spec fn prefixed_message(e: StoreError) -> Seq<char> {
    "Redis error: "@ + e.message@
}

impl ApiError {
    /// The text of the error.
    pub open spec fn message_spec(&self) -> Seq<char> {
        match self {
            ApiError::NoCommand => "no command provided"@,
            ApiError::InvalidEncoding => "invalid encoding"@,
            ApiError::InvalidInput => "invalid input"@,
            ApiError::InvalidToken => "invalid token"@,
            ApiError::RedisError(e) => prefixed_message(*e),
        }
    }

    /// The text of the error.
    pub fn message(&self) -> (r: String)
        ensures
            r@ == self.message_spec(),
    {
        match self {
            ApiError::NoCommand => "no command provided".to_owned(),
            ApiError::InvalidEncoding => "invalid encoding".to_owned(),
            ApiError::InvalidInput => "invalid input".to_owned(),
            ApiError::InvalidToken => "invalid token".to_owned(),
            ApiError::RedisError(e) => {
                let mut r = "Redis error: ".to_owned();
                r.append(e.message.as_str());
                r
            },
        }
    }
}

} // verus!
