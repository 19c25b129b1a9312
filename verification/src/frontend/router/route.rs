//! Where a statement goes.

use super::parser::order_by::{OrderBy, OrderByView};
use vstd::prelude::*;

verus! {

/// Which shard a statement goes to.
#[derive(Debug, Clone, Copy, PartialEq, Eq, Structural)]
pub enum ShardSelector {
    /// Any one shard will do; the cluster picks.
    Any,
    /// Every shard.
    All,
    /// The shard with this number, counted from 0.
    One(usize),
}

/// Whether a statement reads or writes.
#[derive(Debug, Clone, Copy, PartialEq, Eq, Structural)]
pub enum Affinity {
    Read,
    Write,
    Unknown,
}

/// Where a statement goes, and how its rows are to be ordered where they
/// come from more than one shard.
#[derive(Debug, PartialEq, Eq)]
pub struct Route {
    shard: ShardSelector,
    affinity: Affinity,
    order_by: Vec<OrderBy>,
}

/// A route as a plain value.
pub struct RouteView {
    pub shard: ShardSelector,
    pub affinity: Affinity,
    pub order_by: Seq<OrderByView>,
}

/// The clauses of an ORDER BY as plain values.
pub open spec fn clause_views(order_by: Seq<OrderBy>) -> Seq<OrderByView> {
    order_by.map_values(|c: OrderBy| c@)
}

impl View for Route {
    type V = RouteView;

    closed spec fn view(&self) -> RouteView {
        RouteView {
            shard: self.shard,
            affinity: self.affinity,
            order_by: clause_views(self.order_by@),
        }
    }
}

/// Copies the clauses of an ORDER BY.
pub fn clone_order_by(order_by: &[OrderBy]) -> (r: Vec<OrderBy>)
    ensures
        clause_views(r@) == clause_views(order_by@),
{
    let mut r: Vec<OrderBy> = Vec::new();
    let mut i: usize = 0;
    while i < order_by.len()
        invariant
            i <= order_by@.len(),
            r@.len() == i,
            forall|j: int| 0 <= j < i ==> (#[trigger] r@[j])@ == order_by@[j]@,
        decreases order_by@.len() - i,
    {
        r.push(order_by[i].clone());
        i = i + 1;
    }
    assert(clause_views(r@) =~= clause_views(order_by@));
    r
}

impl Clone for Route {
    fn clone(&self) -> (r: Self)
        ensures
            r@ == self@,
    {
        Route {
            shard: self.shard,
            affinity: self.affinity,
            order_by: clone_order_by(self.order_by.as_slice()),
        }
    }
}

impl Default for Route {
    fn default() -> (r: Self)
        ensures
            r@ == (RouteView {
                shard: ShardSelector::Any,
                affinity: Affinity::Unknown,
                order_by: Seq::empty(),
            }),
    {
        Route::unknown()
    }
}

impl Route {
    /// A route of which nothing is known: any shard, to read or to write.
    pub fn unknown() -> (r: Route)
        ensures
            r@ == (RouteView {
                shard: ShardSelector::Any,
                affinity: Affinity::Unknown,
                order_by: Seq::empty(),
            }),
    {
        let r = Route { shard: ShardSelector::Any, affinity: Affinity::Unknown, order_by: Vec::new() };
        assert(r@.order_by =~= Seq::<OrderByView>::empty());
        r
    }

    /// A route to the given shard, ordered by the given clauses.
    pub fn new(shard: ShardSelector, affinity: Affinity, order_by: Vec<OrderBy>) -> (r: Route)
        ensures
            r@ == (RouteView { shard, affinity, order_by: clause_views(order_by@) }),
    {
        Route { shard, affinity, order_by }
    }

    /// A route for a statement that reads.
    pub fn reading(shard: ShardSelector) -> (r: Route)
        ensures
            r@ == (RouteView { shard, affinity: Affinity::Read, order_by: Seq::empty() }),
    {
        let r = Route { shard, affinity: Affinity::Read, order_by: Vec::new() };
        assert(r@.order_by =~= Seq::<OrderByView>::empty());
        r
    }

    /// A route for a statement that writes.
    pub fn writing(shard: ShardSelector) -> (r: Route)
        ensures
            r@ == (RouteView { shard, affinity: Affinity::Write, order_by: Seq::empty() }),
    {
        let r = Route { shard, affinity: Affinity::Write, order_by: Vec::new() };
        assert(r@.order_by =~= Seq::<OrderByView>::empty());
        r
    }

    /// A route for a SELECT: to the one shard that its keys point to, or
    /// to all shards where they point to none or to several.
    pub fn select(shard: Option<usize>, order_by: &[OrderBy]) -> (r: Route)
        ensures
            r@ == (RouteView {
                shard: match shard {
                    Some(i) => ShardSelector::One(i),
                    None => ShardSelector::All,
                },
                affinity: Affinity::Read,
                order_by: clause_views(order_by@),
            }),
    {
        let selector = match shard {
            Some(i) => ShardSelector::One(i),
            None => ShardSelector::All,
        };
        Route { shard: selector, affinity: Affinity::Read, order_by: clone_order_by(order_by) }
    }

    /// Is this a read?
    pub fn read(&self) -> (b: bool)
        ensures
            b == (self@.affinity == Affinity::Read),
    {
        self.affinity == Affinity::Read
    }

    /// Is this a write?
    pub fn write(&self) -> (b: bool)
        ensures
            b == (self@.affinity == Affinity::Write),
    {
        self.affinity == Affinity::Write
    }

    /// Which shard, if any.
    pub fn shard(&self) -> (r: Option<usize>)
        ensures
            r == match self@.shard {
                ShardSelector::One(i) => Some(i),
                _ => None,
            },
    {
        match self.shard {
            ShardSelector::One(i) => Some(i),
            _ => None,
        }
    }

    /// Any one shard will do.
    pub fn any_shard(&self) -> (b: bool)
        ensures
            b == (self@.shard == ShardSelector::Any),
    {
        self.shard == ShardSelector::Any
    }

    /// Query should go across all shards.
    pub fn cross_shard(&self) -> (b: bool)
        ensures
            b == (self@.shard == ShardSelector::All),
    {
        self.shard == ShardSelector::All
    }

    /// Which shard the statement goes to.
    pub fn selector(&self) -> (s: ShardSelector)
        ensures
            s == self@.shard,
    {
        self.shard
    }

    /// Whether the statement reads or writes.
    pub fn affinity(&self) -> (a: Affinity)
        ensures
            a == self@.affinity,
    {
        self.affinity
    }

    /// How the rows are to be ordered.
    pub fn order_by(&self) -> (o: &[OrderBy])
        ensures
            clause_views(o@) == self@.order_by,
    {
        self.order_by.as_slice()
    }

    /// Sends the statement to the given shard, whatever was decided
    /// before.
    pub fn overwrite_shard(&mut self, shard: usize)
        ensures
            final(self)@ == (RouteView { shard: ShardSelector::One(shard), ..old(self)@ }),
    {
        self.shard = ShardSelector::One(shard);
    }
}

} // verus!
