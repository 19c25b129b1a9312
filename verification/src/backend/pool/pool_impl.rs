//! Connection pool.
//!
//! A pool owns the idle connections to one server, counts those that are
//! out with clients, and keeps the clients that wait for one in the order
//! in which they came. It opens and closes nothing itself: it says what is
//! to be done, and the caller does it and reports back. Calls are expected
//! to be serialised by the caller, one at a time.
//!
//! A connection that a client holds is the client's alone: it has left the
//! idle list, and comes back only through [`Pool::release`].

use super::address::{Address, AddressView};
use super::ban::{Ban, Reason};
use super::config::Config;
use super::error::Error;
use crate::backend::server::{elapsed, Server, ServerView};
use crate::net::messages::BackendKeyData;
use crate::state::State;
use std::collections::VecDeque;
use vstd::prelude::*;

verus! {

/// Connection pool.
#[derive(Debug)]
pub struct Pool {
    addr: Address,
    config: Config,
    /// Idle connections, the one that came back last at the end.
    idle: Vec<Server>,
    /// Connections that are out with clients or being opened for them.
    checked_out: usize,
    /// Clients that wait for a connection, the one that came first in front.
    waiters: VecDeque<BackendKeyData>,
    ban: Option<Ban>,
}

/// A pool as a plain value.
pub struct PoolView {
    pub addr: AddressView,
    pub config: Config,
    pub idle: Seq<ServerView>,
    pub checked_out: nat,
    pub waiters: Seq<BackendKeyData>,
    pub ban: Option<Ban>,
}

impl View for Pool {
    type V = PoolView;

    closed spec fn view(&self) -> PoolView {
        PoolView {
            addr: self.addr@,
            config: self.config,
            idle: self.idle@.map_values(|s: Server| s@),
            checked_out: self.checked_out as nat,
            waiters: self.waiters@,
            ban: self.ban,
        }
    }
}

impl PoolView {
    /// What holds of a pool at all times: its configuration is valid; it
    /// has no more connections than it may, idle ones and those that are
    /// out together; and every idle connection is ready for work, outside
    /// a transaction.
    pub open spec fn wf(self) -> bool {
        &&& self.config.valid()
        &&& self.idle.len() + self.checked_out <= self.config.max
        &&& forall|i: int| 0 <= i < self.idle.len() ==> (#[trigger] self.idle[i]).state == State::Idle
    }

    /// The ban is in force at `now`.
    pub open spec fn banned(self, now: u64) -> bool {
        self.ban matches Some(ban) && !ban.spec_expired(now)
    }

    /// The ban as it stands after a look at the clock: a ban that is over
    /// is gone.
    pub open spec fn ban_at(self, now: u64) -> Option<Ban> {
        if self.banned(now) {
            self.ban
        } else {
            None
        }
    }

    /// All connections of the pool, idle and out.
    pub open spec fn total(self) -> nat {
        self.idle.len() + self.checked_out
    }
}

/// What a client gets when it asks for a connection.
#[derive(Debug)]
pub enum Checkout {
    /// An idle connection, now the client's.
    Server(Server),
    /// Room for one more connection, reserved for the client, who opens
    /// it.
    Connect,
    /// A place in the queue. The client is told when a connection comes
    /// back, and asks again.
    Wait,
}

/// The queue without a client.
pub open spec fn without(waiters: Seq<BackendKeyData>, client: BackendKeyData) -> Seq<
    BackendKeyData,
> {
    waiters.filter(|w: BackendKeyData| w != client)
}

/// What a pool did with a connection that came back.
#[derive(Debug)]
pub struct Released {
    /// The connection, where the pool did not keep it: it is to be closed.
    pub discard: Option<Server>,
    /// The client at the head of the queue, who can ask again.
    pub wake: Option<BackendKeyData>,
    /// Whether the pool has fallen below the connections it is to keep.
    pub refill: bool,
}

/// Whether a connection that comes back at `now` can be used again: it is
/// ready for work outside a transaction, and not older than it may be.
pub open spec fn reusable(s: ServerView, config: Config, now: u64) -> bool {
    s.state == State::Idle && elapsed(now, s.created_at) <= config.max_age
}

/// Whether an idle connection is closed at `now`, in a pool that has
/// `total` connections: it is older than a connection may be, or it has
/// been idle for too long and the pool has more than it is to keep.
pub open spec fn evicted(s: ServerView, config: Config, total: nat, now: u64) -> bool {
    elapsed(now, s.created_at) > config.max_age || (elapsed(now, s.last_used_at)
        > config.idle_timeout && total > config.min)
}

/// The idle connections that stay, going through them from the one that
/// has been idle longest, in a pool with `others` connections besides
/// them.
pub open spec fn kept(idle: Seq<ServerView>, config: Config, others: nat, now: u64) -> Seq<
    ServerView,
>
    decreases idle.len(),
{
    if idle.len() == 0 {
        Seq::empty()
    } else if evicted(idle[0], config, idle.len() + others, now) {
        kept(idle.skip(1), config, others, now)
    } else {
        seq![idle[0]] + kept(idle.skip(1), config, others + 1, now)
    }
}

/// The idle connections that are closed, in the same order.
pub open spec fn closed(idle: Seq<ServerView>, config: Config, others: nat, now: u64) -> Seq<
    ServerView,
>
    decreases idle.len(),
{
    if idle.len() == 0 {
        Seq::empty()
    } else if evicted(idle[0], config, idle.len() + others, now) {
        seq![idle[0]] + closed(idle.skip(1), config, others, now)
    } else {
        closed(idle.skip(1), config, others + 1, now)
    }
}

/// Whether the last health check of a connection is more than `interval`
/// ago at `now`, or there has been none.
pub open spec fn stale(s: ServerView, now: u64, interval: u64) -> bool {
    match s.last_healthcheck {
        Some(then) => elapsed(now, then) > interval,
        None => u64::MAX > interval,
    }
}

/// Position `i` holds the first idle connection that is due for a health
/// check.
pub open spec fn is_first_stale(idle: Seq<ServerView>, now: u64, interval: u64, i: int) -> bool {
    &&& 0 <= i < idle.len()
    &&& stale(idle[i], now, interval)
    &&& forall|j: int| 0 <= j < i ==> !stale(#[trigger] idle[j], now, interval)
}

/// What the regular look at a pool calls for.
#[derive(Debug)]
pub struct Maintenance {
    /// Connections to close.
    pub close: Vec<Server>,
    /// How many connections to open to get back to the number the pool is
    /// to keep.
    pub open: usize,
}

/// Going through the idle connections takes none in and leaves every one
/// either kept or closed.
pub proof fn lemma_kept_and_closed(idle: Seq<ServerView>, config: Config, others: nat, now: u64)
    ensures
        kept(idle, config, others, now).len() + closed(idle, config, others, now).len()
            == idle.len(),
        forall|i: int|
            0 <= i < kept(idle, config, others, now).len() ==> idle.contains(
                #[trigger] kept(idle, config, others, now)[i],
            ),
    decreases idle.len(),
{
    if idle.len() > 0 {
        let k = kept(idle, config, others, now);
        if evicted(idle[0], config, idle.len() + others, now) {
            lemma_kept_and_closed(idle.skip(1), config, others, now);
            assert forall|i: int| 0 <= i < k.len() implies idle.contains(#[trigger] k[i]) by {
                let j = choose|j: int| 0 <= j < idle.skip(1).len() && idle.skip(1)[j] == k[i];
                assert(idle[j + 1] == k[i]);
            }
        } else {
            lemma_kept_and_closed(idle.skip(1), config, others + 1, now);
            let tail = kept(idle.skip(1), config, others + 1, now);
            assert forall|i: int| 0 <= i < k.len() implies idle.contains(#[trigger] k[i]) by {
                if i == 0 {
                    assert(idle[0] == k[0]);
                } else {
                    assert(k[i] == tail[i - 1]);
                    let j = choose|j: int|
                        0 <= j < idle.skip(1).len() && idle.skip(1)[j] == tail[i - 1];
                    assert(idle[j + 1] == k[i]);
                }
            }
        }
    }
}

impl Pool {
    /// Create new connection pool.
    pub fn new(addr: Address, config: Config) -> (p: Self)
        requires
            config.valid(),
        ensures
            p@ == (PoolView {
                addr: addr@,
                config,
                idle: Seq::empty(),
                checked_out: 0,
                waiters: Seq::empty(),
                ban: None,
            }),
            p@.wf(),
    {
        let p = Pool {
            addr,
            config,
            idle: Vec::new(),
            checked_out: 0,
            waiters: VecDeque::new(),
            ban: None,
        };
        assert(p@.idle =~= Seq::<ServerView>::empty());
        p
    }

    /// Whether the pool is as every pool is. It always is for a pool that
    /// was made by [`Pool::new`] and changed through the functions of this
    /// module only.
    pub fn is_valid(&self) -> (b: bool)
        ensures
            b == self@.wf(),
    {
        if !self.config.is_valid() {
            return false;
        }
        if self.idle.len() > self.config.max || self.checked_out > self.config.max
            - self.idle.len() {
            return false;
        }
        let mut i: usize = 0;
        while i < self.idle.len()
            invariant
                i <= self.idle@.len(),
                forall|j: int| 0 <= j < i ==> (#[trigger] self@.idle[j]).state == State::Idle,
            decreases self.idle@.len() - i,
        {
            assert(self@.idle[i as int] == self.idle@[i as int]@);
            if !self.idle[i].done() {
                return false;
            }
            i = i + 1;
        }
        true
    }

    /// Pool address.
    pub fn addr(&self) -> (a: &Address)
        ensures
            a@ == self@.addr,
    {
        &self.addr
    }

    /// Pool configuration.
    pub fn config(&self) -> (c: &Config)
        ensures
            *c == self@.config,
    {
        &self.config
    }

    /// How many connections are idle.
    pub fn idle(&self) -> (n: usize)
        ensures
            n == self@.idle.len(),
    {
        self.idle.len()
    }

    /// How many connections are out with clients.
    pub fn checked_out(&self) -> (n: usize)
        ensures
            n == self@.checked_out,
    {
        self.checked_out
    }

    /// How many clients wait for a connection.
    pub fn waiting(&self) -> (n: usize)
        ensures
            n == self@.waiters.len(),
    {
        self.waiters.len()
    }

    /// Whether the pool is out of rotation at `now`.
    pub fn banned(&self, now: u64) -> (b: bool)
        ensures
            b == self@.banned(now),
    {
        match &self.ban {
            Some(ban) => !ban.expired(now),
            None => false,
        }
    }

    /// Takes the pool out of rotation for `ttl` milliseconds. A ban that
    /// is in force stays as it is.
    pub fn ban(&mut self, reason: Reason, now: u64, ttl: u64)
        ensures
            final(self)@ == (PoolView {
                ban: if old(self)@.banned(now) {
                    old(self)@.ban
                } else {
                    Some(Ban { reason, banned_at: now, ttl })
                },
                ..old(self)@
            }),
    {
        if !self.banned(now) {
            self.ban = Some(Ban { reason, banned_at: now, ttl });
        }
    }

    /// Puts the pool back in rotation.
    pub fn unban(&mut self)
        ensures
            final(self)@ == (PoolView { ban: None, ..old(self)@ }),
    {
        self.ban = None;
    }

    /// Asks for a connection on behalf of a client. A pool that is out of
    /// rotation gives none. Otherwise the client gets the idle connection
    /// that came back last; where none is idle, room to open one, as long
    /// as the pool is not full; and a place in the queue where it is.
    pub fn checkout(&mut self, client: BackendKeyData, now: u64) -> (r: Result<Checkout, Error>)
        requires
            old(self)@.wf(),
        ensures
            final(self)@.wf(),
            old(self)@.banned(now) ==> r == Err::<Checkout, Error>(Error::Banned) && final(self)@
                == old(self)@,
            !old(self)@.banned(now) && old(self)@.idle.len() > 0 ==> (r matches Ok(
                Checkout::Server(s),
            ) && s@ == old(self)@.idle.last()) && final(self)@ == (PoolView {
                idle: old(self)@.idle.drop_last(),
                checked_out: old(self)@.checked_out + 1,
                ban: None,
                ..old(self)@
            }),
            !old(self)@.banned(now) && old(self)@.idle.len() == 0 && old(self)@.checked_out < old(
                self,
            )@.config.max ==> (r matches Ok(Checkout::Connect)) && final(self)@ == (PoolView {
                checked_out: old(self)@.checked_out + 1,
                ban: None,
                ..old(self)@
            }),
            !old(self)@.banned(now) && old(self)@.idle.len() == 0 && old(self)@.checked_out
                >= old(self)@.config.max ==> (r matches Ok(Checkout::Wait)) && final(self)@ == (
            PoolView { waiters: old(self)@.waiters.push(client), ban: None, ..old(self)@ }),
    {
        if self.banned(now) {
            return Err(Error::Banned);
        }
        self.ban = None;
        let ghost before = self@;
        match self.idle.pop() {
            Some(server) => {
                self.checked_out = self.checked_out + 1;
                assert(self@.idle =~= before.idle.drop_last());
                assert(server@ == before.idle.last());
                assert forall|i: int| 0 <= i < self@.idle.len() implies (#[trigger] self@.idle[i]).state
                    == State::Idle by {
                    assert(self@.idle[i] == before.idle[i]);
                }
                Ok(Checkout::Server(server))
            },
            None => {
                assert(self@.idle =~= before.idle);
                if self.checked_out < self.config.max {
                    self.checked_out = self.checked_out + 1;
                    Ok(Checkout::Connect)
                } else {
                    self.waiters.push_back(client);
                    Ok(Checkout::Wait)
                }
            },
        }
    }

    /// Gives back the room that was reserved for a connection that could
    /// not be opened, and tells which client can ask again.
    pub fn abandon(&mut self) -> (wake: Option<BackendKeyData>)
        requires
            old(self)@.wf(),
        ensures
            final(self)@.wf(),
            old(self)@.checked_out == 0 ==> wake is None && final(self)@ == old(self)@,
            old(self)@.checked_out > 0 ==> final(self)@ == (PoolView {
                checked_out: (old(self)@.checked_out - 1) as nat,
                waiters: if old(self)@.waiters.len() > 0 {
                    old(self)@.waiters.skip(1)
                } else {
                    old(self)@.waiters
                },
                ..old(self)@
            }) && wake == if old(self)@.waiters.len() > 0 {
                Some(old(self)@.waiters[0])
            } else {
                None
            },
    {
        if self.checked_out == 0 {
            return None;
        }
        self.checked_out = self.checked_out - 1;
        let wake = self.waiters.pop_front();
        assert(self@.waiters =~= if old(self)@.waiters.len() > 0 {
            old(self)@.waiters.skip(1)
        } else {
            old(self)@.waiters
        });
        wake
    }

    /// A client has waited long enough: it leaves the queue.
    pub fn timeout(&mut self, client: BackendKeyData) -> (e: Error)
        ensures
            e == Error::CheckoutTimeout,
            final(self)@ == (PoolView {
                waiters: without(old(self)@.waiters, client),
                ..old(self)@
            }),
    {
        let ghost before = self.waiters@;
        let mut kept: VecDeque<BackendKeyData> = VecDeque::new();
        let mut i: usize = 0;
        proof {
            reveal(Seq::filter);
            assert(before.take(0) =~= Seq::<BackendKeyData>::empty());
        }
        while i < self.waiters.len()
            invariant
                i <= self.waiters@.len(),
                self.waiters@ == before,
                kept@ == without(before.take(i as int), client),
                self@ == old(self)@,
            decreases self.waiters@.len() - i,
        {
            let w = self.waiters[i];
            proof {
                reveal(Seq::filter);
                assert(before.take(i + 1).drop_last() =~= before.take(i as int));
                assert(before.take(i + 1).last() == w);
            }
            if w.pid != client.pid || w.secret != client.secret {
                kept.push_back(w);
            }
            i = i + 1;
        }
        assert(before.take(before.len() as int) =~= before);
        self.waiters = kept;
        Error::CheckoutTimeout
    }

    /// Takes back a connection that was out with a client, at time `now`.
    /// A connection that can be used again goes to the end of the idle
    /// list; any other is handed back to be closed. Either way one
    /// connection fewer is out, and the client at the head of the queue
    /// can ask again.
    ///
    /// The caller attempts a rollback before it returns a connection that
    /// is inside a transaction. A connection that is still inside one, in
    /// the middle of a request or broken is not kept.
    pub fn release(&mut self, server: Server, now: u64) -> (r: Released)
        requires
            old(self)@.wf(),
        ensures
            final(self)@.wf(),
            final(self)@.addr == old(self)@.addr,
            final(self)@.config == old(self)@.config,
            final(self)@.ban == old(self)@.ban,
            final(self)@.checked_out == if old(self)@.checked_out > 0 {
                (old(self)@.checked_out - 1) as nat
            } else {
                0
            },
            final(self)@.waiters == if old(self)@.waiters.len() > 0 {
                old(self)@.waiters.skip(1)
            } else {
                old(self)@.waiters
            },
            r.wake == if old(self)@.waiters.len() > 0 {
                Some(old(self)@.waiters[0])
            } else {
                None
            },
            old(self)@.checked_out > 0 && reusable(server@, old(self)@.config, now) ==> r.discard
                is None && final(self)@.idle == old(self)@.idle.push(
                ServerView { last_used_at: now, ..server@ },
            ),
            !(old(self)@.checked_out > 0 && reusable(server@, old(self)@.config, now)) ==> (
            r.discard matches Some(s) && s@ == server@) && final(self)@.idle == old(self)@.idle,
            r.refill == (final(self)@.total() < old(self)@.config.min),
    {
        let ghost before = self@;
        let wake = self.waiters.pop_front();
        assert(self@.waiters =~= if before.waiters.len() > 0 {
            before.waiters.skip(1)
        } else {
            before.waiters
        });
        let ours = self.checked_out > 0;
        if ours {
            self.checked_out = self.checked_out - 1;
        }
        let discard = if ours && server.done() && server.age(now) <= self.config.max_age {
            let mut server = server;
            server.touch(now);
            self.idle.push(server);
            assert(self@.idle =~= before.idle.push(server@));
            assert forall|i: int| 0 <= i < self@.idle.len() implies (#[trigger] self@.idle[i]).state
                == State::Idle by {
                if i < before.idle.len() {
                    assert(self@.idle[i] == before.idle[i]);
                }
            }
            None
        } else {
            assert(self@.idle =~= before.idle);
            Some(server)
        };
        let refill = self.idle.len() + self.checked_out < self.config.min;
        Released { discard, wake, refill }
    }

    /// Adds a connection that was opened to keep the pool at its minimum,
    /// at time `now`. The pool hands it back where it is full or the
    /// connection is not ready for work.
    pub fn put(&mut self, server: Server, now: u64) -> (r: Option<Server>)
        requires
            old(self)@.wf(),
        ensures
            final(self)@.wf(),
            old(self)@.total() < old(self)@.config.max && reusable(server@, old(self)@.config, now)
                ==> r is None && final(self)@ == (PoolView {
                idle: old(self)@.idle.push(server@),
                ..old(self)@
            }),
            !(old(self)@.total() < old(self)@.config.max && reusable(
                server@,
                old(self)@.config,
                now,
            )) ==> (r matches Some(s) && s@ == server@) && final(self)@ == old(self)@,
    {
        let ghost before = self@;
        if self.idle.len() + self.checked_out < self.config.max && server.done() && server.age(now)
            <= self.config.max_age {
            self.idle.push(server);
            assert(self@.idle =~= before.idle.push(server@));
            assert forall|i: int| 0 <= i < self@.idle.len() implies (#[trigger] self@.idle[i]).state
                == State::Idle by {
                if i < before.idle.len() {
                    assert(self@.idle[i] == before.idle[i]);
                }
            }
            None
        } else {
            Some(server)
        }
    }

    /// Takes out the idle connection that has gone longest without a
    /// health check among those whose last one is more than `interval`
    /// ago, counted from the front of the idle list. The caller checks it
    /// and gives it back like any other connection; after a check that
    /// failed it bans the pool.
    pub fn healthcheck(&mut self, now: u64, interval: u64) -> (r: Option<Server>)
        requires
            old(self)@.wf(),
        ensures
            final(self)@.wf(),
            match r {
                Some(server) => exists|i: int| #[trigger]
                    is_first_stale(old(self)@.idle, now, interval, i) && server@ == old(
                        self,
                    )@.idle[i] && final(self)@ == (PoolView {
                        idle: old(self)@.idle.remove(i),
                        checked_out: old(self)@.checked_out + 1,
                        ..old(self)@
                    }),
                None => final(self)@ == old(self)@ && forall|i: int|
                    0 <= i < old(self)@.idle.len() ==> !stale(
                        #[trigger] old(self)@.idle[i],
                        now,
                        interval,
                    ),
            },
    {
        let ghost before = self@;
        let mut i: usize = 0;
        while i < self.idle.len()
            invariant
                i <= self.idle@.len(),
                self@ == before,
                before == old(self)@,
                before.wf(),
                forall|j: int| 0 <= j < i ==> !stale(#[trigger] before.idle[j], now, interval),
            decreases self.idle@.len() - i,
        {
            assert(before.idle[i as int] == self.idle@[i as int]@);
            if self.idle[i].healthcheck_age(now) > interval {
                let server = self.idle.remove(i);
                self.checked_out = self.checked_out + 1;
                proof {
                    assert(self@.idle =~= before.idle.remove(i as int));
                    assert(is_first_stale(before.idle, now, interval, i as int));
                    assert forall|k: int| 0 <= k < self@.idle.len() implies (#[trigger] self@.idle[k]).state
                        == State::Idle by {
                        if k < i {
                            assert(self@.idle[k] == before.idle[k]);
                        } else {
                            assert(self@.idle[k] == before.idle[k + 1]);
                        }
                    }
                    assert(exists|k: int| #[trigger]
                        is_first_stale(before.idle, now, interval, k) && server@ == before.idle[k]
                            && self@ == (PoolView {
                            idle: before.idle.remove(k),
                            checked_out: before.checked_out + 1,
                            ..before
                        }));
                }
                return Some(server);
            }
            i = i + 1;
        }
        None
    }

    /// The regular look at the pool, at time `now`: closes idle
    /// connections that are too old or have been idle for too long, as far
    /// as the pool keeps its minimum, and says how many to open to get
    /// back to it.
    pub fn maintain(&mut self, now: u64) -> (m: Maintenance)
        requires
            old(self)@.wf(),
        ensures
            final(self)@.wf(),
            final(self)@ == (PoolView {
                idle: kept(old(self)@.idle, old(self)@.config, old(self)@.checked_out, now),
                ..old(self)@
            }),
            m.close@.map_values(|s: Server| s@) == closed(
                old(self)@.idle,
                old(self)@.config,
                old(self)@.checked_out,
                now,
            ),
            m.open == if final(self)@.total() < old(self)@.config.min {
                old(self)@.config.min - final(self)@.total()
            } else {
                0
            },
    {
        let ghost before = self@;
        let ghost all = self@.idle;
        let mut old_idle: Vec<Server> = Vec::new();
        core::mem::swap(&mut old_idle, &mut self.idle);
        let mut close: Vec<Server> = Vec::new();
        let mut others: usize = self.checked_out;
        proof {
            assert(self@.idle =~= Seq::<ServerView>::empty());
            assert(close@.map_values(|s: Server| s@) =~= Seq::<ServerView>::empty());
            assert(old_idle@.map_values(|s: Server| s@) =~= all);
            assert forall|i: int| 0 <= i < old_idle@.len() implies (#[trigger] old_idle@[i])@.state
                == State::Idle by {
                assert(all[i] == old_idle@[i]@);
            }
            assert(Seq::<ServerView>::empty() + all =~= all);
        }
        while old_idle.len() > 0
            invariant
                self.config == before.config,
                self.addr@ == before.addr,
                self.checked_out == before.checked_out,
                self.waiters@ == before.waiters,
                self.ban == before.ban,
                all == before.idle,
                before.wf(),
                others == self.checked_out + self.idle@.len(),
                others + old_idle@.len() <= self.config.max,
                forall|i: int|
                    0 <= i < old_idle@.len() ==> (#[trigger] old_idle@[i])@.state == State::Idle,
                forall|i: int|
                    0 <= i < self.idle@.len() ==> (#[trigger] self.idle@[i])@.state == State::Idle,
                kept(all, self.config, self.checked_out as nat, now) == self.idle@.map_values(
                    |s: Server| s@,
                ) + kept(old_idle@.map_values(|s: Server| s@), self.config, others as nat, now),
                closed(all, self.config, self.checked_out as nat, now) == close@.map_values(
                    |s: Server| s@,
                ) + closed(old_idle@.map_values(|s: Server| s@), self.config, others as nat, now),
            decreases old_idle@.len(),
        {
            let ghost rest = old_idle@.map_values(|s: Server| s@);
            let ghost kept_so_far = self.idle@.map_values(|s: Server| s@);
            let ghost closed_so_far = close@.map_values(|s: Server| s@);
            let total = others + old_idle.len();
            let server = old_idle.remove(0);
            assert(server@ == rest[0]);
            assert(old_idle@.map_values(|s: Server| s@) =~= rest.skip(1));
            let evict = server.age(now) > self.config.max_age || (server.idle_for(now)
                > self.config.idle_timeout && total > self.config.min);
            assert(evict == evicted(rest[0], self.config, rest.len() + others as nat, now));
            if evict {
                close.push(server);
                proof {
                    let tail = closed(rest.skip(1), self.config, others as nat, now);
                    assert(close@.map_values(|s: Server| s@) =~= closed_so_far.push(rest[0]));
                    assert(closed_so_far + (seq![rest[0]] + tail) =~= closed_so_far.push(rest[0])
                        + tail);
                }
            } else {
                self.idle.push(server);
                others = others + 1;
                proof {
                    let tail = kept(rest.skip(1), self.config, others as nat, now);
                    assert(self.idle@.map_values(|s: Server| s@) =~= kept_so_far.push(rest[0]));
                    assert(kept_so_far + (seq![rest[0]] + tail) =~= kept_so_far.push(rest[0])
                        + tail);
                }
            }
        }
        proof {
            let k = self.idle@.map_values(|s: Server| s@);
            assert(k + Seq::<ServerView>::empty() =~= k);
            let c = close@.map_values(|s: Server| s@);
            assert(c + Seq::<ServerView>::empty() =~= c);
            assert forall|i: int| 0 <= i < self@.idle.len() implies (#[trigger] self@.idle[i]).state
                == State::Idle by {
                assert(self@.idle[i] == self.idle@[i]@);
            }
        }
        let total = self.idle.len() + self.checked_out;
        let open = if total < self.config.min {
            self.config.min - total
        } else {
            0
        };
        Maintenance { close, open }
    }
}

/// A pool never has more connections than its configuration allows.
pub proof fn lemma_pool_is_bounded(pool: PoolView)
    requires
        pool.wf(),
    ensures
        pool.idle.len() + pool.checked_out <= pool.config.max,
{
}

/// No idle connection of a pool is broken.
pub proof fn lemma_idle_is_not_broken(pool: PoolView, i: int)
    requires
        pool.wf(),
        0 <= i < pool.idle.len(),
    ensures
        pool.idle[i].state != State::Error,
        pool.idle[i].state != State::Disconnected,
{
}

} // verus!
