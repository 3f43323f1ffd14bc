//! Messages sent over a subchannel and handled by request handlers.
pub mod args;
pub mod json;
pub mod raw;
pub mod thrift;

pub use args::{MessageArgs, MessageWithArgs, ResponseCode};
pub use json::JsonMessage;
pub use raw::RawMessage;
pub use thrift::ThriftMessage;
