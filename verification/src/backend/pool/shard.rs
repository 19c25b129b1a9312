//! A shard: one primary and its replicas.

use super::error::Error;
use super::pool_impl::{Pool, PoolView};
use super::replicas::{Replicas, ReplicasView};
use crate::frontend::router::route::Affinity;
use vstd::prelude::*;

verus! {

/// Which pool of a shard serves a request.
#[derive(Debug, Clone, Copy, PartialEq, Eq, Structural)]
pub enum Role {
    /// The primary.
    Primary,
    /// The replica with this number.
    Replica(usize),
}

/// Primary and replicas of one horizontal partition.
#[derive(Debug)]
pub struct Shard {
    primary: Option<Pool>,
    replicas: Replicas,
}

/// A shard as a plain value.
pub struct ShardView {
    pub primary: Option<PoolView>,
    pub replicas: ReplicasView,
}

impl View for Shard {
    type V = ShardView;

    closed spec fn view(&self) -> ShardView {
        ShardView {
            primary: match self.primary {
                Some(p) => Some(p@),
                None => None,
            },
            replicas: self.replicas@,
        }
    }
}

impl ShardView {
    /// The pools of the shard are as every pool is.
    pub open spec fn wf(self) -> bool {
        &&& self.primary matches Some(p) ==> p.wf()
        &&& self.replicas.wf()
    }

    /// The primary serves, or the reason why it cannot: there is none, or
    /// it is out of rotation.
    pub open spec fn primary_role(self, now: u64) -> Result<Role, Error> {
        match self.primary {
            None => Err(Error::NoPool),
            Some(p) => if p.banned(now) {
                Err(Error::Banned)
            } else {
                Ok(Role::Primary)
            },
        }
    }

    /// The pool in the given role, if the shard has it.
    pub open spec fn pool(self, role: Role) -> Option<PoolView> {
        match role {
            Role::Primary => self.primary,
            Role::Replica(idx) => if idx < self.replicas.pools.len() {
                Some(self.replicas.pools[idx as int])
            } else {
                None
            },
        }
    }

    /// The pool that serves a request: a read goes to the replica whose
    /// turn it is among those in rotation, and to the primary only where
    /// no replica is in rotation; anything else goes to the primary.
    pub open spec fn role(self, affinity: Affinity, now: u64) -> Result<Role, Error> {
        if affinity == Affinity::Read && self.replicas.spec_next(now) is Some {
            Ok(Role::Replica(self.replicas.spec_next(now)->Some_0))
        } else {
            self.primary_role(now)
        }
    }
}

impl ShardView {
    /// The shard after the pick of the pool that serves a request: a read
    /// has moved the turn on among the replicas.
    pub open spec fn after_select(self, affinity: Affinity, now: u64) -> ShardView {
        if affinity == Affinity::Read {
            ShardView { replicas: self.replicas.after_next(now), ..self }
        } else {
            self
        }
    }
}

impl Shard {
    /// A shard made of a primary, if it has one, and replicas.
    pub fn new(primary: Option<Pool>, replicas: Replicas) -> (s: Self)
        requires
            primary matches Some(p) ==> p@.wf(),
            replicas@.wf(),
        ensures
            s@.wf(),
            s@.replicas == replicas@,
            s@.primary == match primary {
                Some(p) => Some(p@),
                None => None,
            },
    {
        Shard { primary, replicas }
    }

    /// Whether the pools of the shard are as every pool is.
    pub fn is_valid(&self) -> (b: bool)
        ensures
            b == self@.wf(),
    {
        let primary = match &self.primary {
            Some(p) => p.is_valid(),
            None => true,
        };
        primary && self.replicas.is_valid()
    }

    /// The primary, if the shard has one.
    pub fn primary(&self) -> (p: Option<&Pool>)
        ensures
            match p {
                Some(pool) => self@.primary == Some(pool@),
                None => self@.primary is None,
            },
    {
        self.primary.as_ref()
    }

    /// The replicas.
    pub fn replicas(&self) -> (r: &Replicas)
        ensures
            r@ == self@.replicas,
    {
        &self.replicas
    }

    /// Picks the pool that serves a request, at time `now`.
    pub fn select(&mut self, affinity: Affinity, now: u64) -> (r: Result<Role, Error>)
        requires
            old(self)@.wf(),
        ensures
            final(self)@.wf(),
            final(self)@ == old(self)@.after_select(affinity, now),
            r == old(self)@.role(affinity, now),
    {
        if affinity == Affinity::Read {
            match self.replicas.next(now) {
                Some(idx) => {
                    return Ok(Role::Replica(idx));
                },
                None => {},
            }
        }
        match &self.primary {
            None => Err(Error::NoPool),
            Some(p) => if p.banned(now) {
                Err(Error::Banned)
            } else {
                Ok(Role::Primary)
            },
        }
    }

    /// The pool in the given role, to be changed in place.
    pub fn pool_mut(&mut self, role: Role) -> (p: Option<&mut Pool>)
        ensures
            p is Some <==> match role {
                Role::Primary => old(self)@.primary is Some,
                Role::Replica(idx) => idx < old(self)@.replicas.pools.len(),
            },
            p is None ==> final(self)@ == old(self)@,
            p matches Some(pool) ==> old(self)@.pool(role) == Some(pool@) && (old(self)@.wf()
                && final(pool)@.wf() ==> final(self)@.wf()),
    {
        match role {
            Role::Replica(idx) => {
                if idx < self.replicas.len() {
                    Some(self.replicas.pool_mut(idx))
                } else {
                    None
                }
            },
            Role::Primary => self.primary.as_mut(),
        }
    }
}

} // verus!
