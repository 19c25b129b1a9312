//! Frontend: what the proxy decides on behalf of its clients.

pub mod buffer;
pub mod client;
pub mod router;

pub use buffer::Buffer;
pub use client::Client;
