//! Replicas of one shard.

use super::pool_impl::{Pool, PoolView};
use vstd::prelude::*;

verus! {

/// The replicas of a shard, which take reads in turn.
#[derive(Debug)]
pub struct Replicas {
    pools: Vec<Pool>,
    /// The replica whose turn it is.
    cursor: usize,
}

/// Replicas as a plain value.
pub struct ReplicasView {
    pub pools: Seq<PoolView>,
    pub cursor: usize,
}

impl View for Replicas {
    type V = ReplicasView;

    closed spec fn view(&self) -> ReplicasView {
        ReplicasView { pools: self.pools@.map_values(|p: Pool| p@), cursor: self.cursor }
    }
}

/// The position `k` steps after `from`, going round `n` positions.
pub open spec fn wrap(from: int, k: int, n: int) -> int {
    if from + k < n {
        from + k
    } else {
        from + k - n
    }
}

impl ReplicasView {
    /// Every pool is as every pool is, and the cursor points at a replica
    /// where there is one.
    pub open spec fn wf(self) -> bool {
        &&& forall|i: int| 0 <= i < self.pools.len() ==> (#[trigger] self.pools[i]).wf()
        &&& self.cursor < self.pools.len() || (self.pools.len() == 0 && self.cursor == 0)
        &&& self.pools.len() <= usize::MAX
    }

    /// Replica `idx` is the first, `k` steps from the cursor, that is in
    /// rotation at `now`.
    pub open spec fn is_next(self, now: u64, k: int, idx: int) -> bool {
        &&& 0 <= k < self.pools.len()
        &&& idx == wrap(self.cursor as int, k, self.pools.len() as int)
        &&& !self.pools[idx].banned(now)
        &&& forall|j: int|
            0 <= j < k ==> (#[trigger] self.pools[wrap(
                self.cursor as int,
                j,
                self.pools.len() as int,
            )]).banned(now)
    }

    /// The replica for the next read, looking from `k` steps behind the
    /// cursor on: the first that is in rotation at `now`.
    pub open spec fn next_from(self, now: u64, k: nat) -> Option<usize>
        decreases self.pools.len() - k,
    {
        if k >= self.pools.len() {
            None
        } else if !self.pools[wrap(self.cursor as int, k as int, self.pools.len() as int)].banned(
            now,
        ) {
            Some(wrap(self.cursor as int, k as int, self.pools.len() as int) as usize)
        } else {
            self.next_from(now, k + 1)
        }
    }

    /// The replica for the next read: the first from the cursor on, going
    /// round, that is in rotation at `now`.
    pub open spec fn spec_next(self, now: u64) -> Option<usize> {
        self.next_from(now, 0)
    }

    /// The replicas after the pick for the next read: the cursor has moved
    /// behind the replica that was picked.
    pub open spec fn after_next(self, now: u64) -> ReplicasView {
        ReplicasView {
            cursor: match self.spec_next(now) {
                Some(idx) => wrap(idx as int, 1, self.pools.len() as int) as usize,
                None => self.cursor,
            },
            ..self
        }
    }

    /// Every replica is out of rotation at `now`.
    pub open spec fn all_banned(self, now: u64) -> bool {
        forall|i: int| 0 <= i < self.pools.len() ==> (#[trigger] self.pools[i]).banned(now)
    }
}

/// The replica that is picked is in rotation, and every replica between
/// the cursor and it is not; and none is picked only where none is in
/// rotation.
pub proof fn lemma_next_is_first_in_rotation(r: ReplicasView, now: u64)
    requires
        r.wf(),
    ensures
        match r.spec_next(now) {
            Some(idx) => exists|k: int| #[trigger] r.is_next(now, k, idx as int),
            None => r.all_banned(now),
        },
{
    lemma_next_from(r, now, 0);
    match r.spec_next(now) {
        Some(idx) => {},
        None => {
            let n = r.pools.len() as int;
            let c = r.cursor as int;
            assert forall|i: int| 0 <= i < n implies (#[trigger] r.pools[i]).banned(now) by {
                let j = if i >= c {
                    i - c
                } else {
                    i - c + n
                };
                assert(wrap(c, j, n) == i);
                assert(r.pools[wrap(c, j, n)].banned(now));
            }
        },
    }
}

/// What looking from `k` steps behind the cursor finds, given that the
/// replicas before that are out of rotation.
proof fn lemma_next_from(r: ReplicasView, now: u64, k: nat)
    requires
        r.wf(),
        k <= r.pools.len(),
        forall|j: int|
            0 <= j < k ==> (#[trigger] r.pools[wrap(
                r.cursor as int,
                j,
                r.pools.len() as int,
            )]).banned(now),
    ensures
        match r.next_from(now, k) {
            Some(idx) => exists|m: int| #[trigger] r.is_next(now, m, idx as int),
            None => forall|j: int|
                0 <= j < r.pools.len() ==> (#[trigger] r.pools[wrap(
                    r.cursor as int,
                    j,
                    r.pools.len() as int,
                )]).banned(now),
        },
    decreases r.pools.len() - k,
{
    if k < r.pools.len() {
        let idx = wrap(r.cursor as int, k as int, r.pools.len() as int);
        if !r.pools[idx].banned(now) {
            let found = r.next_from(now, k);
            assert(found == Some(idx as usize));
            assert(r.is_next(now, k as int, found->Some_0 as int));
        } else {
            assert forall|j: int| 0 <= j < k + 1 implies (#[trigger] r.pools[wrap(
                r.cursor as int,
                j,
                r.pools.len() as int,
            )]).banned(now) by {}
            lemma_next_from(r, now, k + 1);
        }
    }
}

impl Replicas {
    /// Replicas that take their turns from the first.
    pub fn new(pools: Vec<Pool>) -> (r: Self)
        requires
            forall|i: int| 0 <= i < pools@.len() ==> (#[trigger] pools@[i])@.wf(),
        ensures
            r@ == (ReplicasView { pools: pools@.map_values(|p: Pool| p@), cursor: 0 }),
            r@.wf(),
    {
        // The length of a vector fits a `usize`.
        let _ = pools.len();
        let r = Replicas { pools, cursor: 0 };
        assert forall|i: int| 0 <= i < r@.pools.len() implies (#[trigger] r@.pools[i]).wf() by {
            assert(r@.pools[i] == pools@[i]@);
        }
        r
    }

    /// Whether the replicas are as all replicas are. They always are
    /// where they were made by [`Replicas::new`] and their pools were
    /// changed through the functions of [`Pool`] only.
    pub fn is_valid(&self) -> (b: bool)
        ensures
            b == self@.wf(),
    {
        let n = self.pools.len();
        if !(self.cursor < n || (n == 0 && self.cursor == 0)) {
            return false;
        }
        let mut i: usize = 0;
        while i < n
            invariant
                i <= n,
                n == self.pools@.len(),
                forall|j: int| 0 <= j < i ==> (#[trigger] self@.pools[j]).wf(),
            decreases n - i,
        {
            assert(self@.pools[i as int] == self.pools@[i as int]@);
            if !self.pools[i].is_valid() {
                return false;
            }
            i = i + 1;
        }
        true
    }

    /// How many replicas there are.
    pub fn len(&self) -> (n: usize)
        ensures
            n == self@.pools.len(),
    {
        self.pools.len()
    }

    /// Whether there is no replica.
    pub fn is_empty(&self) -> (b: bool)
        ensures
            b == (self@.pools.len() == 0),
    {
        self.pools.len() == 0
    }

    /// One of the replicas.
    pub fn pool(&self, index: usize) -> (p: Option<&Pool>)
        ensures
            index < self@.pools.len() ==> (p matches Some(pool) && pool@ == self@.pools[index as int]),
            index >= self@.pools.len() ==> p is None,
    {
        if index < self.pools.len() {
            assert(self@.pools[index as int] == self.pools@[index as int]@);
            Some(&self.pools[index])
        } else {
            None
        }
    }

    /// Picks the replica for the next read: the first from the cursor on,
    /// going round, that is in rotation. The cursor moves behind it.
    pub fn next(&mut self, now: u64) -> (r: Option<usize>)
        requires
            old(self)@.wf(),
        ensures
            final(self)@.wf(),
            r == old(self)@.spec_next(now),
            final(self)@ == old(self)@.after_next(now),
    {
        let n = self.pools.len();
        let mut k: usize = 0;
        while k < n
            invariant
                k <= n,
                n == self.pools@.len(),
                self@ == old(self)@,
                self@.wf(),
                self@.spec_next(now) == self@.next_from(now, k as nat),
            decreases n - k,
        {
            let idx = if k < n - self.cursor {
                self.cursor + k
            } else {
                k - (n - self.cursor)
            };
            assert(idx == wrap(self.cursor as int, k as int, n as int));
            assert(self@.pools[idx as int] == self.pools@[idx as int]@);
            if !self.pools[idx].banned(now) {
                self.cursor = if idx + 1 < n {
                    idx + 1
                } else {
                    0
                };
                assert(self@.pools =~= old(self)@.pools);
                return Some(idx);
            }
            k = k + 1;
        }
        None
    }

    /// One of the replicas, to be changed in place.
    pub fn pool_mut(&mut self, index: usize) -> (p: &mut Pool)
        requires
            index < old(self)@.pools.len(),
        ensures
            p@ == old(self)@.pools[index as int],
            final(self)@.cursor == old(self)@.cursor,
            final(self)@.pools.len() == old(self)@.pools.len(),
            final(self)@.pools[index as int] == final(p)@,
            forall|i: int|
                0 <= i < old(self)@.pools.len() && i != index ==> #[trigger] final(self)@.pools[i]
                    == old(self)@.pools[i],
    {
        &mut self.pools[index]
    }
}

} // verus!
