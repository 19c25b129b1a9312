//! What a client session holds while it talks to one or more servers.

pub mod multi_shard;
pub mod sort_buffer;
