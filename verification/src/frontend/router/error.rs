//! Router errors.

use vstd::prelude::*;

verus! {

/// Why a statement could not be routed.
#[derive(Debug, Clone, Copy, PartialEq, Eq, Structural)]
pub enum Error {
    /// The SQL parser refused the statement.
    PgQuery,
    /// The query holds no statement.
    EmptyQuery,
    /// The buffer holds no statement, or the statement at hand is not the
    /// one that the request is about.
    NotInSync,
    /// A message of the buffer could not be decoded.
    Net(crate::net::Error),
}

} // verus!
