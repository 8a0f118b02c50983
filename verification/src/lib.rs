//! Transport and dispatch core of an editor-integration bridge.
//!
//! The library multiplexes JSON-RPC traffic between an editor and any number
//! of backend language servers: a length-prefixed wire codec, a per-connection
//! correlation table matching replies to outstanding calls, and a dispatcher
//! that routes inbound traffic by backend identity.

pub mod codec;
pub mod message;
pub mod json;
pub mod client;
pub mod worker;
pub mod vim;
