//! Connection pool errors.

use vstd::prelude::*;

verus! {

/// Why a pool did not hand out a connection.
#[derive(Debug, Clone, Copy, PartialEq, Eq, Structural)]
pub enum Error {
    /// The pool is out of rotation.
    Banned,
    /// No connection became free in time.
    CheckoutTimeout,
    /// A new connection could not be opened in time.
    ConnectTimeout,
    /// No pool can serve the request.
    NoPool,
}

impl Error {
    /// The SQLSTATE under which the error is reported to a client:
    /// `57P03`, cannot_connect_now.
    pub fn code(&self) -> (s: &'static str)
        ensures
            s@ == "57P03"@,
    {
        "57P03"
    }
}

} // verus!
