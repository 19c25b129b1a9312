//! Backend errors.

use crate::net::messages::Message;
use vstd::prelude::*;

verus! {

/// What can go wrong with a server connection.
#[derive(Debug)]
pub enum Error {
    /// Reading from or writing to the server failed.
    Io,
    /// A message from the server could not be decoded.
    Net(crate::net::Error),
    /// The server answered with an ErrorResponse, which is carried here as
    /// it came.
    ConnectionError(Message),
    /// The server finished its startup without a BackendKeyData.
    NoBackendKeyData,
    /// The server sent a message that has no place at this point.
    UnexpectedMessage(char),
    /// The connection is in the middle of a request.
    NotInSync,
    /// The server reported a transaction status other than `I`, `T`, `E`.
    UnexpectedTransactionStatus(char),
    /// Two shards describe the rows of one statement differently.
    RowDescriptionMismatch,
}

} // verus!
