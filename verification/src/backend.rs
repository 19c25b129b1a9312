//! Backend: server connections and the pools that hold them.

pub mod error;
pub mod pool;
pub mod server;

pub use error::Error;
pub use pool::Cluster;
pub use server::Server;
