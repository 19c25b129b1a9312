//! A PostgreSQL proxy core: wire codec, server connection state, connection
//! pool, query router and cross-shard result merging.
//!
//! Everything here is pure logic over plain values. Sockets, timers and the
//! SQL parser live with the caller, which feeds their results in as events.

pub mod backend;
pub mod frontend;
pub mod net;
pub mod state;
pub mod stats;
