//! What the router reads out of a statement.

pub mod ast;
pub mod comment;
pub mod order_by;
pub mod query;
pub mod value;
pub mod where_clause;

pub use order_by::OrderBy;
pub use query::{Command, QueryParser};
