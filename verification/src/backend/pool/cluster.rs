//! A cluster: the shards of one logical database.

use super::error::Error;
use super::pool_impl::{Pool, PoolView};
use super::replicas::wrap;
use super::shard::{Role, Shard, ShardView};
use crate::frontend::router::route::{Affinity, Route, ShardSelector};
use vstd::prelude::*;

verus! {

/// A table whose rows are spread over the shards by the value of one
/// column.
#[derive(Debug)]
pub struct ShardedTable {
    /// The table, or any table where no name is given.
    pub name: Option<String>,
    /// The column that decides the shard.
    pub column: String,
}

/// A sharded table as a plain value.
pub struct ShardedTableView {
    pub name: Option<Seq<char>>,
    pub column: Seq<char>,
}

impl View for ShardedTable {
    type V = ShardedTableView;

    open spec fn view(&self) -> ShardedTableView {
        ShardedTableView {
            name: match self.name {
                Some(n) => Some(n@),
                None => None,
            },
            column: self.column@,
        }
    }
}

/// One pool of a cluster.
#[derive(Debug, Clone, Copy, PartialEq, Eq, Structural)]
pub struct Target {
    /// The shard.
    pub shard: usize,
    /// The pool of the shard.
    pub role: Role,
}

/// Where a request goes.
#[derive(Debug, Clone, Copy, PartialEq, Eq, Structural)]
pub enum Selection {
    /// To every shard: the caller asks each of them.
    Fanout,
    /// To one pool.
    One(Target),
}

/// The shards of one logical database, with what holds of all of them.
#[derive(Debug)]
pub struct Cluster {
    shards: Vec<Shard>,
    read_only: bool,
    write_only: bool,
    sharded_tables: Vec<ShardedTable>,
    /// The shard whose turn it is to take a request that any shard can
    /// take.
    cursor: usize,
}

/// A cluster as a plain value.
pub struct ClusterView {
    pub shards: Seq<ShardView>,
    pub read_only: bool,
    pub write_only: bool,
    pub sharded_tables: Seq<ShardedTableView>,
    pub cursor: usize,
}

/// Shards as plain values.
pub open spec fn shard_views(shards: Seq<Shard>) -> Seq<ShardView> {
    shards.map_values(|s: Shard| s@)
}

impl View for Cluster {
    type V = ClusterView;

    closed spec fn view(&self) -> ClusterView {
        ClusterView {
            shards: shard_views(self.shards@),
            read_only: self.read_only,
            write_only: self.write_only,
            sharded_tables: self.sharded_tables@.map_values(|t: ShardedTable| t@),
            cursor: self.cursor,
        }
    }
}

impl ClusterView {
    /// Every shard is as every shard is, and the cursor points at a shard
    /// where there is one.
    pub open spec fn wf(self) -> bool {
        &&& forall|i: int| 0 <= i < self.shards.len() ==> (#[trigger] self.shards[i]).wf()
        &&& self.cursor < self.shards.len() || (self.shards.len() == 0 && self.cursor == 0)
    }

    /// Whether a request reads or writes, as far as the cluster is
    /// concerned: a cluster that is read-only reads, whatever the request
    /// says, and one that is write-only writes.
    pub open spec fn affinity(self, asked: Affinity) -> Affinity {
        if self.read_only {
            Affinity::Read
        } else if self.write_only {
            Affinity::Write
        } else {
            asked
        }
    }

    /// Where a request goes: to every shard, or to the pool that serves
    /// it in the shard it goes to.
    pub open spec fn selection(self, selector: ShardSelector, asked: Affinity, now: u64) -> Result<
        Selection,
        Error,
    > {
        if selector == ShardSelector::All {
            Ok(Selection::Fanout)
        } else {
            match self.shard_for(selector) {
                None => Err(Error::NoPool),
                Some(i) => match self.shards[i as int].role(self.affinity(asked), now) {
                    Ok(role) => Ok(Selection::One(Target { shard: i, role })),
                    Err(e) => Err(e),
                },
            }
        }
    }

    /// The cluster after the decision where a request goes: a request to
    /// any shard has moved the turn on among the shards, and a read has
    /// moved it on among the replicas of its shard.
    pub open spec fn after_select(self, selector: ShardSelector, asked: Affinity, now: u64) -> ClusterView {
        match self.shard_for(selector) {
            None => self,
            Some(i) => ClusterView {
                shards: self.shards.update(
                    i as int,
                    self.shards[i as int].after_select(self.affinity(asked), now),
                ),
                cursor: if selector == ShardSelector::Any {
                    wrap(self.cursor as int, 1, self.shards.len() as int) as usize
                } else {
                    self.cursor
                },
                ..self
            },
        }
    }

    /// A pool of the cluster, if the cluster has it.
    pub open spec fn pool(self, target: Target) -> Option<PoolView> {
        if target.shard < self.shards.len() {
            self.shards[target.shard as int].pool(target.role)
        } else {
            None
        }
    }

    /// The shard that a request goes to, where it goes to one: the shard
    /// it names, or the one whose turn it is.
    pub open spec fn shard_for(self, selector: ShardSelector) -> Option<usize> {
        match selector {
            ShardSelector::All => None,
            ShardSelector::One(i) => if i < self.shards.len() {
                Some(i)
            } else {
                None
            },
            ShardSelector::Any => if self.shards.len() > 0 {
                Some(self.cursor)
            } else {
                None
            },
        }
    }
}

impl Cluster {
    /// A cluster of the given shards.
    pub fn new(
        shards: Vec<Shard>,
        read_only: bool,
        write_only: bool,
        sharded_tables: Vec<ShardedTable>,
    ) -> (c: Self)
        requires
            forall|i: int| 0 <= i < shards@.len() ==> (#[trigger] shards@[i])@.wf(),
        ensures
            c@.wf(),
            c@ == (ClusterView {
                shards: shard_views(shards@),
                read_only,
                write_only,
                sharded_tables: sharded_tables@.map_values(|t: ShardedTable| t@),
                cursor: 0,
            }),
    {
        let c = Cluster { shards, read_only, write_only, sharded_tables, cursor: 0 };
        assert forall|i: int| 0 <= i < c@.shards.len() implies (#[trigger] c@.shards[i]).wf() by {
            assert(c@.shards[i] == shards@[i]@);
        }
        c
    }

    /// Whether the cluster is as every cluster is. It always is where it
    /// was made by [`Cluster::new`] and its pools were changed through the
    /// functions of [`Pool`] only.
    pub fn is_valid(&self) -> (b: bool)
        ensures
            b == self@.wf(),
    {
        let n = self.shards.len();
        if !(self.cursor < n || (n == 0 && self.cursor == 0)) {
            return false;
        }
        let mut i: usize = 0;
        while i < n
            invariant
                i <= n,
                n == self.shards@.len(),
                forall|j: int| 0 <= j < i ==> (#[trigger] self@.shards[j]).wf(),
            decreases n - i,
        {
            assert(self@.shards[i as int] == self.shards@[i as int]@);
            if !self.shards[i].is_valid() {
                return false;
            }
            i = i + 1;
        }
        true
    }

    /// Get all shards.
    pub fn shards(&self) -> (s: &[Shard])
        ensures
            shard_views(s@) == self@.shards,
    {
        self.shards.as_slice()
    }

    /// All requests are reads.
    pub fn read_only(&self) -> (b: bool)
        ensures
            b == self@.read_only,
    {
        self.read_only
    }

    /// All requests are writes.
    pub fn write_only(&self) -> (b: bool)
        ensures
            b == self@.write_only,
    {
        self.write_only
    }

    /// The tables whose rows are spread over the shards.
    pub fn shaded_tables(&self) -> (t: &[ShardedTable])
        ensures
            t@.map_values(|t: ShardedTable| t@) == self@.sharded_tables,
    {
        self.sharded_tables.as_slice()
    }

    /// Decides where a request with the given route goes, at time `now`.
    /// A route to all shards is the caller's to fan out. A route to any
    /// shard takes the shard whose turn it is, and the turn passes on.
    /// Within the shard a write goes to the primary and a read to a
    /// replica in rotation, or to the primary where there is none.
    pub fn select(&mut self, route: &Route, now: u64) -> (r: Result<Selection, Error>)
        requires
            old(self)@.wf(),
        ensures
            final(self)@.wf(),
            final(self)@ == old(self)@.after_select(route@.shard, route@.affinity, now),
            r == old(self)@.selection(route@.shard, route@.affinity, now),
    {
        let affinity = if self.read_only {
            Affinity::Read
        } else if self.write_only {
            Affinity::Write
        } else {
            route.affinity()
        };
        let n = self.shards.len();
        let ghost before = self@;
        let index = match route.selector() {
            ShardSelector::All => {
                return Ok(Selection::Fanout);
            },
            ShardSelector::One(i) => {
                if i >= n {
                    return Err(Error::NoPool);
                }
                i
            },
            ShardSelector::Any => {
                if n == 0 {
                    return Err(Error::NoPool);
                }
                let i = self.cursor;
                self.cursor = if i + 1 < n {
                    i + 1
                } else {
                    0
                };
                i
            },
        };
        let ghost shards = self.shards@;
        assert(before.shards[index as int] == shards[index as int]@);
        let role = self.shards[index].select(affinity, now);
        proof {
            let changed = self.shards@[index as int];
            assert(self.shards@ =~= shards.update(index as int, changed));
            assert(self@.shards =~= before.shards.update(index as int, changed@));
            assert forall|i: int| 0 <= i < self@.shards.len() implies (#[trigger] self@.shards[i]).wf() by {
                if i != index {
                    assert(self@.shards[i] == before.shards[i]);
                }
            }
        }
        match role {
            Ok(role) => Ok(Selection::One(Target { shard: index, role })),
            Err(e) => Err(e),
        }
    }

    /// A pool of the cluster, to be changed in place: to ban it, to look
    /// after it, to take a waiting client off its queue.
    pub fn pool_mut(&mut self, target: Target) -> (p: Option<&mut Pool>)
        ensures
            p is Some <==> old(self)@.pool(target) is Some,
            p is None ==> final(self)@ == old(self)@,
            p matches Some(pool) ==> old(self)@.pool(target) == Some(pool@) && (old(self)@.wf()
                && final(pool)@.wf() ==> final(self)@.wf()),
    {
        if target.shard < self.shards.len() {
            proof {
                let i = target.shard as int;
                let before = self.shards@;
                let views = self@.shards;
                assert(views[i] == before[i]@);
                assert forall|changed: Shard| #[trigger]
                    shard_views(before.update(i, changed)) == views.update(
                        i,
                        changed@,
                    ) by {
                    assert(shard_views(before.update(i, changed)) =~= views.update(
                        i,
                        changed@,
                    ));
                }
                assert(views.update(i, views[i]) =~= views);
                assert forall|changed: ShardView| changed.wf() && self@.wf() implies (ClusterView {
                    shards: #[trigger] views.update(i, changed),
                    ..self@
                }).wf() by {
                    if changed.wf() && self@.wf() {
                        let after = views.update(i, changed);
                        assert forall|j: int| 0 <= j < after.len() implies (#[trigger] after[j]).wf() by {
                            if j != i {
                                assert(after[j] == views[j]);
                            }
                        }
                    }
                }
            }
            let shard = &mut self.shards[target.shard];
            shard.pool_mut(target.role)
        } else {
            None
        }
    }
}

} // verus!
