//! The transmit cursor of one logical packet: which segment goes next, when
//! the packet restarts under a new frame id, and when it is given up.
//!
//! The pump owns the transport; it asks the cursor for the next frame,
//! tries to send it, and reports the outcome back.

use crate::flow::FlowKey;
use crate::frame::{spec_segment_count, MAX_LOGICAL_LEN, MAX_SEGMENTS, SINGLE_OVERHEAD};
use crate::pool::PacketPool;
use crate::segment::{
    cursor_count, plan_for_mps, segment_frame, spec_plan, spec_segment_frame,
    spec_usable_seg_cap, usable_seg_cap, SegmentPlan,
};
use vstd::prelude::*;

verus! {

/// Restarts after "too large" answers that a packet survives.
pub const MAX_RESTARTS: u8 = 2;

/// A logical packet part-way through transmission. It keeps its bytes so a
/// stalled transmit resumes without losing or re-reading anything.
pub struct PartialPacket {
    pub packet: Vec<u8>,
    pub flow: FlowKey,
    /// Index of the next segment to send.
    pub next_index: usize,
    pub frame_id: u32,
    /// Segments in the packet's current shape.
    pub count: usize,
    pub total: usize,
}

/// How a segmented transmit starts.
#[derive(Debug, Clone, Copy, PartialEq, Eq, Structural)]
pub enum SegmentedStart {
    /// Send `count` segments of at most `seg_cap` bytes.
    Segments { count: usize, seg_cap: usize },
    /// The packet fits one frame after all.
    Single,
    /// No useful segment fits: refresh the path MTU and decide again.
    RefreshThenRetry,
    /// Still no useful segment after a refresh.
    Drop,
}

/// What the cursor asks the pump to do next.
#[derive(Debug)]
pub enum NextFrame {
    /// Every segment went out.
    Done { logical: usize },
    /// Send this encoded segment.
    Frame(Vec<u8>),
    /// The next segment would start beyond the packet.
    TooLarge,
}

impl PartialPacket {
    pub open spec fn wf(&self) -> bool {
        &&& self.total == self.packet@.len()
        &&& self.total <= MAX_LOGICAL_LEN
        &&& 1 <= self.count
        &&& self.next_index <= self.count
    }

    /// A fresh cursor for `packet`, sized for `mps`, under `frame_id`.
    pub fn new(packet: Vec<u8>, flow: FlowKey, mps: usize, frame_id: u32) -> (c: PartialPacket)
        requires
            packet@.len() <= MAX_LOGICAL_LEN,
        ensures
            c.wf(),
            c.packet@ == packet@,
            c.flow == flow,
            c.next_index == 0,
            c.frame_id == frame_id,
            c.total == packet@.len(),
            spec_segment_count(packet@.len() as int, mps as int) matches Some(n) ==> c.count == (
            if n < 1 {
                1
            } else {
                n
            }),
            spec_segment_count(packet@.len() as int, mps as int) is None ==> c.count == 1,
    {
        let total = packet.len();
        let count = cursor_count(total, mps);
        proof {
            if let Some(n) = spec_segment_count(total as int, mps as int) {
                assert(n <= total) by (nonlinear_arith)
                    requires
                        spec_segment_count(total as int, mps as int) == Some(n),
                ;
            }
        }
        PartialPacket { packet, flow, next_index: 0, frame_id, count, total }
    }

    /// Whether `count` segments differ from the cursor's shape, so the
    /// packet must restart under a fresh frame id.
    pub fn needs_restart(&self, count: usize) -> (b: bool)
        ensures
            b == (count != self.count),
    {
        count != self.count
    }

    /// Restart the packet as `count` segments under `frame_id`.
    pub fn restart(&mut self, count: usize, frame_id: u32)
        requires
            old(self).wf(),
            1 <= count,
        ensures
            final(self).wf(),
            final(self).count == count,
            final(self).frame_id == frame_id,
            final(self).next_index == 0,
            final(self).packet@ == old(self).packet@,
            final(self).flow == old(self).flow,
            final(self).total == old(self).total,
    {
        self.count = count;
        self.frame_id = frame_id;
        self.next_index = 0;
    }

    /// The next frame of a transmit with segments of `seg_cap` bytes.
    pub fn next_frame(&self, pool: &mut PacketPool, seg_cap: usize) -> (r: NextFrame)
        requires
            self.wf(),
            old(pool).wf(),
            self.count <= MAX_SEGMENTS,
            1 <= seg_cap <= MAX_LOGICAL_LEN,
        ensures
            final(pool).wf(),
            self.next_index >= self.count ==> (r matches NextFrame::Done { logical } && logical
                == self.total),
            self.next_index < self.count && self.next_index * seg_cap >= self.total ==> r matches NextFrame::TooLarge,
            self.next_index < self.count && self.next_index * seg_cap < self.total ==> (r matches NextFrame::Frame(f) && f@ == spec_segment_frame(
                self.packet@,
                self.frame_id,
                self.next_index as int,
                self.count as int,
                seg_cap as int,
            )),
    {
        if self.next_index >= self.count {
            return NextFrame::Done { logical: self.total };
        }
        match segment_frame(
            pool,
            self.packet.as_slice(),
            self.frame_id,
            self.next_index,
            self.count,
            seg_cap,
        ) {
            Some(f) => NextFrame::Frame(f),
            None => NextFrame::TooLarge,
        }
    }

    /// The segment went out; move to the next one.
    pub fn on_sent(&mut self)
        requires
            old(self).wf(),
            old(self).next_index < old(self).count,
        ensures
            final(self).wf(),
            final(self).next_index == old(self).next_index + 1,
            final(self).count == old(self).count,
            final(self).frame_id == old(self).frame_id,
            final(self).packet@ == old(self).packet@,
            final(self).total == old(self).total,
            final(self).flow == old(self).flow,
    {
        self.next_index = self.next_index + 1;
    }

    /// The path refused a segment as too large: restart the packet under
    /// `frame_id` and count the restart. Returns the new restart count and
    /// whether to go on: not after more than two restarts, nor when the
    /// refreshed path MTU fits neither a useful segment nor the whole packet.
    pub fn on_too_large(&mut self, frame_id: u32, restarts: u8, refreshed_mps: usize) -> (r: (
        u8,
        bool,
    ))
        requires
            old(self).wf(),
            restarts <= MAX_RESTARTS,
        ensures
            final(self).wf(),
            final(self).next_index == 0,
            final(self).frame_id == frame_id,
            final(self).count == old(self).count,
            final(self).packet@ == old(self).packet@,
            final(self).total == old(self).total,
            final(self).flow == old(self).flow,
            r.0 == restarts + 1,
            r.1 == (restarts + 1 <= MAX_RESTARTS && !(spec_usable_seg_cap(refreshed_mps as int) is None
                && old(self).total + SINGLE_OVERHEAD > refreshed_mps)),
    {
        self.next_index = 0;
        self.frame_id = frame_id;
        let n = restarts + 1;
        if n > MAX_RESTARTS {
            return (n, false);
        }
        if usable_seg_cap(refreshed_mps).is_none() && self.total + SINGLE_OVERHEAD > refreshed_mps {
            return (n, false);
        }
        (n, true)
    }

    /// Give the packet back (to be queued again at the head of its flow).
    pub fn into_packet(self) -> (r: (Vec<u8>, FlowKey))
        ensures
            r.0@ == self.packet@,
            r.1 == self.flow,
    {
        (self.packet, self.flow)
    }
}

/// How a segmented transmit of `total` bytes starts at `mps`; `refreshed`
/// tells whether the path MTU was already refreshed for this packet.
pub open spec fn spec_segmented_start(total: int, mps: int, refreshed: bool) -> SegmentedStart {
    match spec_plan(total, mps) {
        SegmentPlan::Segmented { count, seg_cap } => SegmentedStart::Segments { count, seg_cap },
        SegmentPlan::Single => SegmentedStart::Single,
        SegmentPlan::Impossible => if refreshed {
            SegmentedStart::Drop
        } else {
            SegmentedStart::RefreshThenRetry
        },
    }
}

pub fn segmented_start(total: usize, mps: usize, refreshed: bool) -> (s: SegmentedStart)
    ensures
        s == spec_segmented_start(total as int, mps as int, refreshed),
{
    match plan_for_mps(total, mps) {
        SegmentPlan::Segmented { count, seg_cap } => SegmentedStart::Segments { count, seg_cap },
        SegmentPlan::Single => SegmentedStart::Single,
        SegmentPlan::Impossible => if refreshed {
            SegmentedStart::Drop
        } else {
            SegmentedStart::RefreshThenRetry
        },
    }
}

/// Whether a transmit takes the single-frame path: only a cursor that has
/// sent nothing yet, for a packet that fits one frame at `mps`.
pub fn use_single_frame(next_index: usize, total: usize, mps: usize) -> (b: bool)
    ensures
        b == (next_index == 0 && spec_plan(total as int, mps as int) == SegmentPlan::Single),
{
    if next_index != 0 {
        return false;
    }
    match plan_for_mps(total, mps) {
        SegmentPlan::Single => true,
        _ => false,
    }
}

/// What the transport answered for a single-frame send.
#[derive(Debug, Clone, Copy, PartialEq, Eq, Structural)]
pub enum SingleSendOutcome {
    Sent,
    /// The transport's send buffer is full.
    TransportFull,
    /// No connection to the peer.
    NoConnection,
    /// The connection is closed.
    Closed,
    /// The frame exceeds what the path carries now.
    TooLarge,
}

/// What follows a single-frame send.
#[derive(Debug, Clone, Copy)]
pub enum SingleSendAction {
    /// The packet went out in one frame.
    Done,
    /// Put the packet back at the head of its flow and wait; `dial` starts
    /// a connection attempt first.
    Requeue { dial: bool },
    /// The packet could not be rebuilt from its frame: count it under the
    /// label and wait; `dial` starts a connection attempt first.
    CountDrop { label: &'static str, dial: bool },
    /// Refresh the path MTU and send the packet segmented under a new frame
    /// id.
    Resegment,
    /// Give the packet up, counted under the label.
    GiveUp(&'static str),
}

/// Decides what follows a single-frame send; `rebuilt` tells whether the
/// logical packet could be recovered from the returned frame.
pub fn single_send_action(outcome: SingleSendOutcome, rebuilt: bool) -> (a: SingleSendAction)
    ensures
        outcome == SingleSendOutcome::Sent ==> a == SingleSendAction::Done,
        outcome == SingleSendOutcome::TransportFull && rebuilt ==> a == (SingleSendAction::Requeue {
            dial: false,
        }),
        outcome == SingleSendOutcome::TransportFull && !rebuilt ==> (a matches SingleSendAction::CountDrop {
            label,
            dial,
        } && label@ == "datagram_too_large"@ && !dial),
        (outcome == SingleSendOutcome::NoConnection || outcome == SingleSendOutcome::Closed) && rebuilt
            ==> a == (SingleSendAction::Requeue { dial: true }),
        (outcome == SingleSendOutcome::NoConnection || outcome == SingleSendOutcome::Closed) && !rebuilt
            ==> (a matches SingleSendAction::CountDrop { label, dial } && label@ == "no_connection"@
            && dial),
        outcome == SingleSendOutcome::TooLarge && rebuilt ==> a == SingleSendAction::Resegment,
        outcome == SingleSendOutcome::TooLarge && !rebuilt ==> (a matches SingleSendAction::GiveUp(l)
            && l@ == "datagram_too_large"@),
{
    match outcome {
        SingleSendOutcome::Sent => SingleSendAction::Done,
        SingleSendOutcome::TransportFull => if rebuilt {
            SingleSendAction::Requeue { dial: false }
        } else {
            SingleSendAction::CountDrop { label: "datagram_too_large", dial: false }
        },
        SingleSendOutcome::NoConnection | SingleSendOutcome::Closed => if rebuilt {
            SingleSendAction::Requeue { dial: true }
        } else {
            SingleSendAction::CountDrop { label: "no_connection", dial: true }
        },
        SingleSendOutcome::TooLarge => if rebuilt {
            SingleSendAction::Resegment
        } else {
            SingleSendAction::GiveUp("datagram_too_large")
        },
    }
}

} // verus!
