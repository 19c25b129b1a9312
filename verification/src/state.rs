//! Connection state.

use vstd::prelude::*;

verus! {

/// Where a connection stands, on either side of the proxy.
#[derive(Debug, Clone, Copy, PartialEq, Eq, Structural)]
pub enum State {
    /// Waiting for work, outside a transaction.
    Idle,
    /// A request has been sent and its replies are not complete.
    Active,
    /// A client waits for a server connection.
    Waiting,
    /// Waiting for work, inside a transaction.
    IdleInTransaction,
    /// Waiting for work, inside a transaction that has failed.
    TransactionError,
    /// The connection is broken and must be discarded.
    Error,
    /// The other side has gone.
    Disconnected,
}

} // verus!
