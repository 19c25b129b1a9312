//! Connection counters.

use vstd::prelude::*;

verus! {

/// What a connection has carried so far. A counter that reaches the
/// largest number it can hold stays there.
#[derive(Debug, Clone, Copy, PartialEq, Eq, Structural)]
pub struct ConnStats {
    /// Bytes written to the connection.
    pub bytes_sent: usize,
    /// Bytes read from the connection.
    pub bytes_received: usize,
    /// Requests completed.
    pub queries: usize,
    /// Transactions completed.
    pub transactions: usize,
}

/// The sum of two counts, or the largest count where that is smaller.
pub open spec fn spec_count(a: usize, b: usize) -> usize {
    if a + b > usize::MAX {
        usize::MAX
    } else {
        (a + b) as usize
    }
}

/// Adds to a counter.
pub fn count(a: usize, b: usize) -> (r: usize)
    ensures
        r == spec_count(a, b),
{
    if a > usize::MAX - b {
        usize::MAX
    } else {
        a + b
    }
}

impl Default for ConnStats {
    fn default() -> (s: Self)
        ensures
            s == (ConnStats { bytes_sent: 0, bytes_received: 0, queries: 0, transactions: 0 }),
    {
        ConnStats { bytes_sent: 0, bytes_received: 0, queries: 0, transactions: 0 }
    }
}

} // verus!
