//! Pool configuration.

use vstd::prelude::*;

verus! {

/// Pool configuration. All times are in milliseconds.
#[derive(Debug, Clone, Copy, PartialEq, Eq, Structural)]
pub struct Config {
    /// Minimum connections that should be in the pool.
    pub min: usize,
    /// Maximum connections allowed in the pool.
    pub max: usize,
    /// How long to wait for a connection before giving up.
    pub checkout_timeout: u64,
    /// Close connections that have been idle for longer than this.
    pub idle_timeout: u64,
    /// How long to wait for connections to be created.
    pub connect_timeout: u64,
    /// How long a connection can be open.
    pub max_age: u64,
}

impl Config {
    /// A pool can be run with this configuration: it allows at least one
    /// connection, and no fewer than it asks to keep.
    pub open spec fn valid(self) -> bool {
        self.min <= self.max && self.max >= 1
    }

    /// Whether a pool can be run with this configuration.
    pub fn is_valid(&self) -> (b: bool)
        ensures
            b == self.valid(),
    {
        self.min <= self.max && self.max >= 1
    }

    /// Connect timeout duration.
    pub fn connect_timeout(&self) -> (ms: u64)
        ensures
            ms == self.connect_timeout,
    {
        self.connect_timeout
    }

    /// Checkout timeout duration.
    pub fn checkout_timeout(&self) -> (ms: u64)
        ensures
            ms == self.checkout_timeout,
    {
        self.checkout_timeout
    }

    /// Idle timeout duration.
    pub fn idle_timeout(&self) -> (ms: u64)
        ensures
            ms == self.idle_timeout,
    {
        self.idle_timeout
    }

    /// Max age duration.
    pub fn max_age(&self) -> (ms: u64)
        ensures
            ms == self.max_age,
    {
        self.max_age
    }
}

impl Default for Config {
    fn default() -> (c: Self)
        ensures
            c == (Config {
                min: 1,
                max: 10,
                checkout_timeout: 5_000,
                idle_timeout: 60_000,
                connect_timeout: 5_000,
                max_age: 86_400_000,
            }),
            c.valid(),
    {
        Self {
            min: 1,
            max: 10,
            checkout_timeout: 5_000,
            idle_timeout: 60_000,
            connect_timeout: 5_000,
            max_age: 86_400_000,
        }
    }
}

} // verus!
