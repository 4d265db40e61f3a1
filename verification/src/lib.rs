//! A client for a network-fault-injection proxy server: create, list and
//! delete proxies, toggle them, and attach toxics such as latency or
//! bandwidth limits. The server's observable behaviour is captured by a
//! verified in-memory model; the wire shapes are produced and read by a
//! verified codec.

pub mod toxic;
pub mod proxy;
pub mod client;
pub mod wire;
pub mod laws;
