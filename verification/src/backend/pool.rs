//! Manage connections to the servers.

pub mod address;
pub mod ban;
pub mod cluster;
pub mod config;
pub mod connection;
pub mod error;
pub mod pool_impl;
pub mod replicas;
pub mod shard;

pub use address::Address;
pub use ban::Ban;
pub use cluster::Cluster;
pub use config::Config;
pub use error::Error;
pub use pool_impl::Pool;
pub use replicas::Replicas;
pub use shard::Shard;
