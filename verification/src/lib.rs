//! TChannel: a network multiplexing and framing RPC protocol.
//!
//! This crate holds the protocol's logic: the frame and payload codecs,
//! fragmentation of message arguments into frames and their reassembly,
//! the message types, and the bookkeeping of channels, handlers and
//! pending message ids.
pub mod defragmentation;
pub mod channel;
pub mod connection;
pub mod errors;
pub mod fragmentation;
pub mod frames;
pub mod handler;
pub mod messages;
pub mod name_map;
pub mod protocol;
pub mod server;
pub mod subchannel;
pub mod text;
pub mod wire;
