//! Streaming bridge for an HTTP server whose per-request behavior is an
//! externally supplied handler: bounded byte pipes with backpressure, the
//! adapters that connect the asynchronous transport side to a blocking
//! handler invocation, request-metadata construction, handler result
//! classification, and the acceptor/shutdown state machine.

pub mod acceptor;
pub mod adapter;
pub mod bridge;
pub mod forwarder;
pub mod pipe;
pub mod plugin;
pub mod response;
pub mod meta;
pub mod query;
pub mod worker;
