//! A UDP tunnel: an entry process multiplexes many external peers over one
//! UDP flow to a target process, which talks to the real server through one
//! socket per flow.
//!
//! This crate holds the verified core: the wire format and handshake, the two
//! connection caches with their timeout-based reclamation, the polling order,
//! the source-address patterns and the log-line formatter.

pub mod addr;
pub mod proto;
pub mod common;
pub mod cache;
pub mod server;
pub mod server_cache;
pub mod output;
pub mod sourcefmt;
pub mod poll;
pub mod client;
