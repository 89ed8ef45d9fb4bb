//! Exchanges that answer one request with a stream of messages.

pub mod protocol;
