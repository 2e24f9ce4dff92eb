//! A small application-level wire protocol and its session logic.
//!
//! The crate has two tightly coupled parts: a typed binary codec that maps
//! in-memory values to big-endian byte sequences on ordered streams, and the
//! command dispatch and session state machine that uses that codec to
//! authenticate peers, answer requests, and fan broadcast notifications out to
//! the connected peers. All I/O stays outside: every function here works on
//! plain byte buffers and on an explicitly passed session store.

pub mod chat;
pub mod chat_client;
pub mod chat_server;
pub mod codec;
pub mod ping;
pub mod ping_client;
pub mod ping_server;
pub mod store;
