//! Onion-routed tunneling proxy: the verified core.
//!
//! A joiner accepts SOCKSv5 requests and forwards them through a chain of
//! relays, nesting one HTTP/2 session inside another so that each relay sees
//! only its neighbours. This crate holds the parts of that system that are
//! pure computation: the RFC 9000 variable-length integer and RFC 9298
//! capsule codec, the SOCKSv5 codec, the MASQUE URI handling, and the relay's
//! request-routing decision. The network I/O around them lives outside.

pub mod client;
pub mod error;
pub mod payload;
pub mod proto;
pub mod server;
pub mod socks;
