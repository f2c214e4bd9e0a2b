//! TUN device sizing and the pending write batch that keeps its unsent tail.

use crate::frame::MAX_LOGICAL_LEN;
use std::collections::VecDeque;
use vstd::prelude::*;

verus! {

/// Burst budget per readiness wakeup.
pub const BURST_BUDGET: usize = 64;

/// Inbound TUN write batch: packets accumulated per drain iteration.
pub const TUN_WRITE_BATCH: usize = 32;

/// Headroom added to every receive slot.
pub const SLOT_HEADROOM: usize = 256;

/// Smallest MTU a slot is sized for.
pub const MIN_SLOT_MTU: usize = 576;

pub open spec fn spec_slot_cap_for_mtu(mtu: usize) -> int {
    if mtu < MIN_SLOT_MTU {
        MIN_SLOT_MTU + SLOT_HEADROOM
    } else if mtu > MAX_LOGICAL_LEN {
        MAX_LOGICAL_LEN + SLOT_HEADROOM
    } else {
        mtu + SLOT_HEADROOM
    }
}

/// Slot size for a virtual MTU: the MTU clamped to the supported range, plus
/// headroom.
pub fn slot_cap_for_mtu(mtu: usize) -> (cap: usize)
    ensures
        cap == spec_slot_cap_for_mtu(mtu),
        cap >= mtu || cap == MAX_LOGICAL_LEN + SLOT_HEADROOM,
        MIN_SLOT_MTU + SLOT_HEADROOM <= cap <= MAX_LOGICAL_LEN + SLOT_HEADROOM,
{
    let clamped = if mtu < MIN_SLOT_MTU {
        MIN_SLOT_MTU
    } else if mtu > MAX_LOGICAL_LEN {
        MAX_LOGICAL_LEN
    } else {
        mtu
    };
    clamped + SLOT_HEADROOM
}

/// Pending TUN writes. Packets leave only when the device took them; a full
/// device leaves the whole tail queued.
pub struct TunWriteBatch {
    pub pending: VecDeque<Vec<u8>>,
}

/// What a write attempt on the device came back with.
#[derive(Debug, Clone, Copy, PartialEq, Eq, Structural)]
pub enum WriteOutcome {
    /// The device took the packet.
    Written,
    /// The device ring is full for now.
    WouldBlock,
    /// The device failed.
    Failed,
}

/// What the drain loop does next.
#[derive(Debug, Clone, Copy, PartialEq, Eq, Structural)]
pub enum DrainStep {
    /// Offer the (new) front packet.
    Continue,
    /// Stop for now; the tail stays queued.
    Stop,
    /// Report the device error; the tail stays queued.
    Abort,
}

impl TunWriteBatch {
    pub open spec fn queued(&self) -> Seq<Seq<u8>> {
        self.pending@.map_values(|v: Vec<u8>| v@)
    }

    pub fn new() -> (b: TunWriteBatch)
        ensures
            b.queued() == Seq::<Seq<u8>>::empty(),
    {
        TunWriteBatch { pending: VecDeque::new() }
    }

    pub fn push(&mut self, pkt: Vec<u8>)
        ensures
            final(self).queued() == old(self).queued().push(pkt@),
    {
        self.pending.push_back(pkt);
        proof {
            assert(self.queued() =~= old(self).queued().push(pkt@));
        }
    }

    pub fn is_empty(&self) -> (b: bool)
        ensures
            b == (self.queued().len() == 0),
    {
        self.pending.len() == 0
    }

    /// The packet the device is offered next.
    pub fn front(&self) -> (p: Option<&Vec<u8>>)
        ensures
            self.queued().len() == 0 ==> p is None,
            self.queued().len() > 0 ==> (p matches Some(v) && v@ == self.queued()[0]),
    {
        if self.pending.len() == 0 {
            None
        } else {
            Some(&self.pending[0])
        }
    }

    /// Account for the device's answer to the front packet: a written packet
    /// leaves the queue, anything else leaves the queue as it was.
    pub fn on_write(&mut self, outcome: WriteOutcome) -> (step: DrainStep)
        ensures
            outcome == WriteOutcome::Written && old(self).queued().len() > 0 ==> (final(self).queued()
                == old(self).queued().drop_first() && step == DrainStep::Continue),
            outcome == WriteOutcome::Written && old(self).queued().len() == 0 ==> (final(self).queued()
                == old(self).queued() && step == DrainStep::Stop),
            outcome == WriteOutcome::WouldBlock ==> (final(self).queued() == old(self).queued()
                && step == DrainStep::Stop),
            outcome == WriteOutcome::Failed ==> (final(self).queued() == old(self).queued()
                && step == DrainStep::Abort),
    {
        match outcome {
            WriteOutcome::Written => {
                if self.pending.len() == 0 {
                    DrainStep::Stop
                } else {
                    let _ = self.pending.pop_front();
                    proof {
                        assert(self.queued() =~= old(self).queued().drop_first());
                    }
                    DrainStep::Continue
                }
            },
            WriteOutcome::WouldBlock => DrainStep::Stop,
            WriteOutcome::Failed => DrainStep::Abort,
        }
    }
}

} // verus!
