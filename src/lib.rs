//! A gateway that runs key-value store commands for HTTP requests.
//!
//! A request becomes a command (`input`) whose arguments are typed as they
//! are read (`argument`); the dispatcher's decisions (`dispatch`) say when a
//! pooled connection is asked for, used and given back, how a pipeline's
//! results are put back in order, and when a transaction is refused before
//! anything is sent; replies are written as JSON (`reply`) and wrapped in
//! envelopes (`response`).
pub mod argument;
pub mod auth;
pub mod command;
pub mod dispatch;
pub mod encoding;
pub mod error;
pub mod input;
pub mod json;
pub mod reply;
pub mod response;
pub mod text;

pub use argument::Argument;
pub use command::Command;
pub use error::{ApiError, StoreError};
pub use json::JsonValue;
pub use reply::{redis_value_to_json, Reply};
pub use response::{ApiResponse, ResponseBuilder};
