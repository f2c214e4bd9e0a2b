//! Recycled packet buffers to avoid per-packet allocation churn.

use std::collections::VecDeque;
use vstd::prelude::*;

verus! {

/// Smallest number of buffers a pool keeps.
pub const MIN_POOL_CAP: usize = 8;

/// A bounded free list of empty byte buffers.
#[derive(Debug, Default)]
pub struct PacketPool {
    free: VecDeque<Vec<u8>>,
    cap: usize,
}

/// Calls `Vec::capacity`: how many bytes the buffer can hold without
/// reallocating. The value depends on the allocator; nothing is claimed.
#[verifier::external_body]
fn buffer_capacity(v: &Vec<u8>) -> (c: usize) {
    v.capacity()
}

impl PacketPool {
    /// The buffers kept for reuse, the next one to be handed out first.
    pub closed spec fn buffers(&self) -> Seq<Vec<u8>> {
        self.free@
    }

    /// Number of buffers currently kept for reuse.
    pub open spec fn pooled(&self) -> nat {
        self.buffers().len()
    }

    /// Most buffers the pool keeps.
    pub closed spec fn capacity(&self) -> nat {
        self.cap as nat
    }

    /// The pool never holds more than its capacity, its capacity is at
    /// least `MIN_POOL_CAP`, and every buffer it keeps is empty.
    pub closed spec fn wf(&self) -> bool {
        &&& self.free@.len() <= self.cap
        &&& self.cap >= MIN_POOL_CAP
        &&& forall|i: int| 0 <= i < self.free@.len() ==> (#[trigger] self.free@[i])@.len() == 0
    }

    /// Every buffer a well-formed pool keeps is empty.
    pub proof fn lemma_pooled_buffers_empty(&self, i: int)
        requires
            self.wf(),
            0 <= i < self.pooled(),
        ensures
            self.buffers()[i]@.len() == 0,
            self.pooled() <= self.capacity(),
    {
    }

    pub fn new(cap: usize) -> (p: Self)
        ensures
            p.wf(),
            p.pooled() == 0,
            p.capacity() == if cap < MIN_POOL_CAP { MIN_POOL_CAP } else { cap },
    {
        PacketPool {
            free: VecDeque::new(),
            cap: if cap < MIN_POOL_CAP { MIN_POOL_CAP } else { cap },
        }
    }

    /// An empty buffer: the oldest pooled one (grown to hold `capacity`
    /// bytes) when there is one, the others keeping their order; else a
    /// fresh buffer of that capacity.
    pub fn acquire(&mut self, capacity: usize) -> (v: Vec<u8>)
        requires
            old(self).wf(),
        ensures
            final(self).wf(),
            v@.len() == 0,
            final(self).capacity() == old(self).capacity(),
            old(self).pooled() > 0 ==> final(self).buffers() == old(self).buffers().drop_first(),
            old(self).pooled() == 0 ==> final(self).buffers() == old(self).buffers(),
    {
        let ghost before = self.free@;
        match self.free.pop_front() {
            Some(v) => {
                proof {
                    assert forall|i: int| 0 <= i < self.free@.len() implies (
                    #[trigger] self.free@[i])@.len() == 0 by {
                        assert(self.free@[i] == before[i + 1]);
                    }
                }
                let mut v = v;
                v.clear();
                let have = buffer_capacity(&v);
                v.reserve(capacity.saturating_sub(have));
                v
            },
            None => Vec::with_capacity(capacity),
        }
    }

    /// Give a buffer back: it is emptied and kept at the back, behind the
    /// buffers already pooled, unless the pool is full (then it is dropped).
    pub fn release(&mut self, v: Vec<u8>)
        requires
            old(self).wf(),
        ensures
            final(self).wf(),
            final(self).capacity() == old(self).capacity(),
            old(self).pooled() < old(self).capacity() ==> final(self).pooled() == old(self).pooled() + 1
                && final(self).buffers().drop_last() == old(self).buffers()
                && final(self).buffers().last()@ == Seq::<u8>::empty(),
            old(self).pooled() >= old(self).capacity() ==> final(self).buffers() == old(
                self,
            ).buffers(),
    {
        let mut v = v;
        v.clear();
        if self.free.len() < self.cap {
            let ghost before = self.free@;
            self.free.push_back(v);
            proof {
                assert(self.free@.drop_last() =~= before);
                assert forall|i: int| 0 <= i < self.free@.len() implies (
                #[trigger] self.free@[i])@.len() == 0 by {
                    if i < before.len() {
                        assert(self.free@[i] == before[i]);
                    }
                }
            }
        }
    }
}

} // verus!
