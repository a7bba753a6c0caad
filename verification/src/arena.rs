//! The shared-message arena model: a fixed pool of reference-counted
//! slots. An inbound frame takes one slot, every handle it is fanned out
//! to holds a reference, and the slot frees itself when the last reference
//! goes. Sizing the pool as `HANDLES_MAX * hwm + retained + 1` makes
//! allocation infallible while the flow invariants hold.

use vstd::prelude::*;

use crate::HANDLES_MAX;

verus! {

/// How many slots are in use: those with a non-zero reference count.
pub open spec fn count_live(s: Seq<u64>) -> int
    decreases s.len(),
{
    if s.len() == 0 {
        0
    } else {
        (if s[0] != 0 {
            1int
        } else {
            0int
        }) + count_live(s.skip(1))
    }
}

pub proof fn lemma_count_live_bounds(s: Seq<u64>)
    ensures
        0 <= count_live(s) <= s.len(),
    decreases s.len(),
{
    if s.len() > 0 {
        lemma_count_live_bounds(s.skip(1));
    }
}

/// A pool where every slot is held has a full count, and conversely.
pub proof fn lemma_count_live_full(s: Seq<u64>)
    requires
        forall|i: int| 0 <= i < s.len() ==> #[trigger] s[i] != 0,
    ensures
        count_live(s) == s.len(),
    decreases s.len(),
{
    if s.len() > 0 {
        let tail = s.skip(1);
        assert(forall|i: int| 0 <= i < tail.len() ==> #[trigger] tail[i] != 0) by {
            assert(forall|i: int| 0 <= i < tail.len() ==> tail[i] == s[i + 1]);
        }
        lemma_count_live_full(tail);
    }
}

/// A pool with a free slot is not at its full count.
pub proof fn lemma_count_live_not_full(s: Seq<u64>, i: int)
    requires
        0 <= i < s.len(),
        s[i] == 0,
    ensures
        count_live(s) < s.len(),
    decreases s.len(),
{
    lemma_count_live_bounds(s.skip(1));
    if i > 0 {
        lemma_count_live_not_full(s.skip(1), i - 1);
    }
}

/// Changing one slot changes the count by the difference of the two
/// occupancy bits.
pub proof fn lemma_count_live_update(s: Seq<u64>, i: int, v: u64)
    requires
        0 <= i < s.len(),
    ensures
        count_live(s.update(i, v)) == count_live(s) - (if s[i] != 0 {
            1int
        } else {
            0int
        }) + (if v != 0 {
            1int
        } else {
            0int
        }),
    decreases s.len(),
{
    let su = s.update(i, v);
    if i == 0 {
        assert(su.skip(1) =~= s.skip(1));
    } else {
        assert(su.skip(1) =~= s.skip(1).update(i - 1, v));
        lemma_count_live_update(s.skip(1), i - 1, v);
        assert(su[0] == s[0]);
    }
}

/// The fixed-capacity pool of reference counts; a count of zero marks a
/// free slot.
pub struct MessageArena {
    pub refs: Vec<u64>,
}

impl MessageArena {
    pub open spec fn capacity(&self) -> int {
        self.refs@.len() as int
    }

    pub open spec fn live(&self) -> int {
        count_live(self.refs@)
    }

    pub fn new(size: usize) -> (r: Self)
        ensures
            r.capacity() == size,
            r.live() == 0,
    {
        let mut refs: Vec<u64> = Vec::new();
        let mut i: usize = 0;
        while i < size
            invariant
                0 <= i <= size,
                refs@.len() == i,
                count_live(refs@) == 0,
                forall|j: int| 0 <= j < i ==> #[trigger] refs@[j] == 0,
            decreases size - i,
        {
            let ghost pre = refs@;
            refs.push(0);
            i = i + 1;
            proof {
                lemma_count_push(pre, 0);
            }
        }
        MessageArena { refs }
    }

    /// Takes a free slot for a fresh message, handing back its index with
    /// one reference held. Fails exactly when every slot is in use.
    pub fn allocate(&mut self) -> (r: Option<usize>)
        ensures
            r is Some <==> old(self).live() < old(self).capacity(),
            r is None ==> final(self).refs@ == old(self).refs@,
            r matches Some(i) ==> i < old(self).capacity() && old(self).refs@[i as int] == 0
                && final(self).refs@ == old(self).refs@.update(i as int, 1)
                && final(self).live() == old(self).live() + 1,
            final(self).capacity() == old(self).capacity(),
    {
        let n = self.refs.len();
        let mut i: usize = 0;
        while i < n
            invariant
                0 <= i <= n,
                n == self.refs@.len(),
                self == old(self),
                forall|j: int| 0 <= j < i ==> #[trigger] self.refs@[j] != 0,
            decreases n - i,
        {
            if self.refs[i] == 0 {
                let slot = &mut self.refs[i];
                *slot = 1;
                proof {
                    lemma_count_live_update(old(self).refs@, i as int, 1);
                    lemma_count_live_not_full(old(self).refs@, i as int);
                }
                return Some(i);
            }
            i = i + 1;
        }
        proof {
            lemma_count_live_full(self.refs@);
        }
        None
    }

    /// Adds one reference for another handle sharing the message.
    pub fn inc_ref(&mut self, i: usize)
        requires
            i < old(self).capacity(),
            old(self).refs@[i as int] > 0,
            old(self).refs@[i as int] < u64::MAX,
        ensures
            final(self).refs@ == old(self).refs@.update(
                i as int,
                (old(self).refs@[i as int] + 1) as u64,
            ),
            final(self).live() == old(self).live(),
            final(self).capacity() == old(self).capacity(),
    {
        let slot = &mut self.refs[i];
        *slot = *slot + 1;
        proof {
            lemma_count_live_update(
                old(self).refs@,
                i as int,
                (old(self).refs@[i as int] + 1) as u64,
            );
        }
    }

    /// Drops one reference; the slot frees itself at zero.
    pub fn dec_ref(&mut self, i: usize) -> (freed: bool)
        requires
            i < old(self).capacity(),
            old(self).refs@[i as int] > 0,
        ensures
            final(self).refs@ == old(self).refs@.update(
                i as int,
                (old(self).refs@[i as int] - 1) as u64,
            ),
            freed == (old(self).refs@[i as int] == 1),
            final(self).live() == old(self).live() - (if freed {
                1int
            } else {
                0int
            }),
            final(self).capacity() == old(self).capacity(),
    {
        let slot = &mut self.refs[i];
        *slot = *slot - 1;
        let freed = self.refs[i] == 0;
        proof {
            lemma_count_live_update(
                old(self).refs@,
                i as int,
                (old(self).refs@[i as int] - 1) as u64,
            );
        }
        freed
    }
}

proof fn lemma_count_push(s: Seq<u64>, v: u64)
    ensures
        count_live(s.push(v)) == count_live(s) + (if v != 0 {
            1int
        } else {
            0int
        }),
    decreases s.len(),
{
    let sp = s.push(v);
    assert(sp.len() == s.len() + 1);
    if s.len() == 0 {
        assert(sp[0] == v);
        assert(sp.skip(1) =~= Seq::<u64>::empty());
        assert(count_live(sp) == (if v != 0 {
            1int
        } else {
            0int
        }) + count_live(sp.skip(1)));
    } else {
        assert(sp.skip(1) =~= s.skip(1).push(v));
        lemma_count_push(s.skip(1), v);
        assert(sp[0] == s[0]);
        assert(count_live(sp) == (if sp[0] != 0 {
            1int
        } else {
            0int
        }) + count_live(sp.skip(1)));
        assert(count_live(s) == (if s[0] != 0 {
            1int
        } else {
            0int
        }) + count_live(s.skip(1)));
    }
}

/// The arena size the managers use: room for every handle's full queue,
/// everything the workers retain, and the one message being dispatched.
pub open spec fn arena_size_spec(hwm: int, retained_max: int) -> int {
    HANDLES_MAX * hwm + retained_max + 1
}

pub fn arena_size(hwm: usize, retained_max: usize) -> (r: usize)
    requires
        arena_size_spec(hwm as int, retained_max as int) <= usize::MAX,
    ensures
        r == arena_size_spec(hwm as int, retained_max as int),
{
    HANDLES_MAX * hwm + retained_max + 1
}

/// Arena safety: with `handles` live handles of queue depth `hwm` and at
/// most `retained` messages retained by workers, an arena sized for the
/// full handle bound still has a free slot, so allocating the next
/// inbound message cannot fail.
pub proof fn lemma_arena_never_fails(a: MessageArena, handles: int, hwm: int, retained: int)
    requires
        0 <= handles <= HANDLES_MAX,
        0 <= hwm,
        0 <= retained,
        a.capacity() == arena_size_spec(hwm, retained),
        a.live() <= handles * hwm + retained,
    ensures
        a.live() < a.capacity(),
{
    vstd::arithmetic::mul::lemma_mul_inequality(handles, HANDLES_MAX as int, hwm);
}

} // verus!
