//! Pool bans.

use vstd::prelude::*;

verus! {

/// Why a pool was taken out of rotation.
#[derive(Debug, Clone, Copy, PartialEq, Eq, Structural)]
pub enum Reason {
    /// A health check failed.
    HealthCheck,
    /// A checkout failed on a protocol error.
    ProtocolError,
    /// Checkouts kept timing out.
    CheckoutTimeout,
    /// An operator asked for it.
    Manual,
}

/// A pool is out of rotation from `banned_at` for `ttl` milliseconds.
#[derive(Debug, Clone, Copy, PartialEq, Eq, Structural)]
pub struct Ban {
    /// Why the pool was banned.
    pub reason: Reason,
    /// When the ban was put in place.
    pub banned_at: u64,
    /// How long the ban lasts.
    pub ttl: u64,
}

impl Ban {
    /// The ban is over at `now`: `ttl` has passed since it was put in
    /// place.
    pub open spec fn spec_expired(self, now: u64) -> bool {
        now >= self.banned_at + self.ttl
    }

    /// Whether the ban is over.
    pub fn expired(&self, now: u64) -> (b: bool)
        ensures
            b == self.spec_expired(now),
    {
        now >= self.banned_at && now - self.banned_at >= self.ttl
    }
}

} // verus!
