//! The two long-running loops of the data plane as step functions: the
//! reader of one inbound tunnel connection, and the pump that sends one
//! peer's queued packets. Each step takes the loop's phase and what was
//! just observed, and gives the next phase and the work to perform; the
//! caller performs it (awaits, sends, closes) and reports what came of it.

use vstd::prelude::*;

verus! {

// ---------------------------------------------------------------------------
// Inbound tunnel connection reader
// ---------------------------------------------------------------------------

/// Where the reader of an inbound tunnel connection stands.
#[derive(Debug, Clone, Copy, PartialEq, Eq, Structural)]
pub enum TunnelConnPhase {
    /// Just accepted; the peer ACL has not been asked.
    Start,
    /// Counted as active; waiting for the pool to adopt the connection.
    AwaitAdopt,
    /// Counted as active; waiting for the peer's fast state.
    AwaitResolve,
    /// Counted as active; waiting for the published TUN generation, with
    /// the routing version seen at admission.
    AwaitPlane { route_gen: u64 },
    /// Reading datagrams; `route_gen` is the routing version the fast state
    /// was resolved at.
    Serving { route_gen: u64 },
    /// Finished.
    Closed,
}

/// What the caller observed.
#[derive(Debug, Clone, Copy, PartialEq, Eq, Structural)]
pub enum TunnelConnEvent {
    /// The ACL's answer for the remote peer, and whether a connection pool
    /// is in use.
    Admission { peer_allowed: bool, has_pool: bool },
    /// Whether the pool installed this connection (it may lose a tie-break).
    Adopted(bool),
    /// Whether the peer's fast state was found, and the routing version.
    Resolved { found: bool, route_version: u64 },
    /// Whether a TUN generation is published.
    Plane(bool),
    /// A batch of datagrams was read; the routing version now.
    Batch { route_version: u64 },
    /// The generation was cancelled.
    Cancelled,
    /// The connection stopped delivering datagrams.
    ReadFailed,
    /// Writing to the TUN device failed.
    FlushFailed,
}

/// How the active-connection gauge changes.
#[derive(Debug, Clone, Copy, PartialEq, Eq, Structural)]
pub enum GaugeChange {
    Keep,
    Inc,
    Dec,
}

/// The work the caller performs next.
#[derive(Debug, Clone, Copy, PartialEq, Eq, Structural)]
pub enum TunnelWork {
    /// Close the connection with code 1 and reason `policy_deny`.
    CloseDenied,
    /// Offer the connection to the pool.
    Adopt,
    /// Resolve the peer's fast state.
    Resolve,
    /// Close the connection with code 1 and reason `no_route`.
    CloseNoRoute,
    /// Load the published TUN generation.
    LoadPlane,
    /// Read the next batch of datagrams.
    Read,
    /// Handle the batch just read, re-resolving the fast state first when
    /// the routing version changed; then read again.
    Process { reresolve: bool },
    /// Leave the loop.
    Exit,
    /// The event does not apply in this phase: nothing to do.
    Ignore,
}

/// The work and the gauge change of one step.
#[derive(Debug, Clone, Copy, PartialEq, Eq, Structural)]
pub struct TunnelConnAction {
    pub work: TunnelWork,
    pub gauge: GaugeChange,
}

pub open spec fn act(work: TunnelWork, gauge: GaugeChange) -> TunnelConnAction {
    TunnelConnAction { work, gauge }
}

/// One step of the connection reader. A peer the ACL refuses is closed
/// with `policy_deny` and never counted. An allowed one is counted as
/// active, adopted into the pool (when there is one; losing the tie-break
/// ends the reader), resolved (an unknown peer is closed with `no_route`),
/// pinned to the published TUN generation (none: the reader ends), then
/// served batch by batch until cancellation, a read failure or a TUN write
/// failure. Every exit after the count is taken gives it back.
pub open spec fn spec_tunnel_conn_step(phase: TunnelConnPhase, event: TunnelConnEvent) -> (
    TunnelConnPhase,
    TunnelConnAction,
) {
    match (phase, event) {
        (TunnelConnPhase::Start, TunnelConnEvent::Admission { peer_allowed, has_pool }) => {
            if !peer_allowed {
                (TunnelConnPhase::Closed, act(TunnelWork::CloseDenied, GaugeChange::Keep))
            } else if has_pool {
                (TunnelConnPhase::AwaitAdopt, act(TunnelWork::Adopt, GaugeChange::Inc))
            } else {
                (TunnelConnPhase::AwaitResolve, act(TunnelWork::Resolve, GaugeChange::Inc))
            }
        },
        (TunnelConnPhase::AwaitAdopt, TunnelConnEvent::Adopted(adopted)) => {
            if adopted {
                (TunnelConnPhase::AwaitResolve, act(TunnelWork::Resolve, GaugeChange::Keep))
            } else {
                (TunnelConnPhase::Closed, act(TunnelWork::Exit, GaugeChange::Dec))
            }
        },
        (TunnelConnPhase::AwaitResolve, TunnelConnEvent::Resolved { found, route_version }) => {
            if found {
                (
                    TunnelConnPhase::AwaitPlane { route_gen: route_version },
                    act(TunnelWork::LoadPlane, GaugeChange::Keep),
                )
            } else {
                (TunnelConnPhase::Closed, act(TunnelWork::CloseNoRoute, GaugeChange::Dec))
            }
        },
        (TunnelConnPhase::AwaitPlane { route_gen }, TunnelConnEvent::Plane(published)) => {
            if published {
                (TunnelConnPhase::Serving { route_gen }, act(TunnelWork::Read, GaugeChange::Keep))
            } else {
                (TunnelConnPhase::Closed, act(TunnelWork::Exit, GaugeChange::Dec))
            }
        },
        (TunnelConnPhase::Serving { route_gen }, TunnelConnEvent::Batch { route_version }) => (
            TunnelConnPhase::Serving { route_gen: route_version },
            act(TunnelWork::Process { reresolve: route_version != route_gen }, GaugeChange::Keep),
        ),
        (TunnelConnPhase::Serving { .. }, TunnelConnEvent::Cancelled) => (
            TunnelConnPhase::Closed,
            act(TunnelWork::Exit, GaugeChange::Dec),
        ),
        (TunnelConnPhase::Serving { .. }, TunnelConnEvent::ReadFailed) => (
            TunnelConnPhase::Closed,
            act(TunnelWork::Exit, GaugeChange::Dec),
        ),
        (TunnelConnPhase::Serving { .. }, TunnelConnEvent::FlushFailed) => (
            TunnelConnPhase::Closed,
            act(TunnelWork::Exit, GaugeChange::Dec),
        ),
        _ => (phase, act(TunnelWork::Ignore, GaugeChange::Keep)),
    }
}

pub fn tunnel_conn_step(phase: TunnelConnPhase, event: TunnelConnEvent) -> (r: (
    TunnelConnPhase,
    TunnelConnAction,
))
    ensures
        r == spec_tunnel_conn_step(phase, event),
{
    let keep = GaugeChange::Keep;
    match (phase, event) {
        (TunnelConnPhase::Start, TunnelConnEvent::Admission { peer_allowed, has_pool }) => {
            if !peer_allowed {
                (TunnelConnPhase::Closed, TunnelConnAction { work: TunnelWork::CloseDenied, gauge: keep })
            } else if has_pool {
                (
                    TunnelConnPhase::AwaitAdopt,
                    TunnelConnAction { work: TunnelWork::Adopt, gauge: GaugeChange::Inc },
                )
            } else {
                (
                    TunnelConnPhase::AwaitResolve,
                    TunnelConnAction { work: TunnelWork::Resolve, gauge: GaugeChange::Inc },
                )
            }
        },
        (TunnelConnPhase::AwaitAdopt, TunnelConnEvent::Adopted(adopted)) => {
            if adopted {
                (TunnelConnPhase::AwaitResolve, TunnelConnAction { work: TunnelWork::Resolve, gauge: keep })
            } else {
                (
                    TunnelConnPhase::Closed,
                    TunnelConnAction { work: TunnelWork::Exit, gauge: GaugeChange::Dec },
                )
            }
        },
        (TunnelConnPhase::AwaitResolve, TunnelConnEvent::Resolved { found, route_version }) => {
            if found {
                (
                    TunnelConnPhase::AwaitPlane { route_gen: route_version },
                    TunnelConnAction { work: TunnelWork::LoadPlane, gauge: keep },
                )
            } else {
                (
                    TunnelConnPhase::Closed,
                    TunnelConnAction { work: TunnelWork::CloseNoRoute, gauge: GaugeChange::Dec },
                )
            }
        },
        (TunnelConnPhase::AwaitPlane { route_gen }, TunnelConnEvent::Plane(published)) => {
            if published {
                (TunnelConnPhase::Serving { route_gen }, TunnelConnAction { work: TunnelWork::Read, gauge: keep })
            } else {
                (
                    TunnelConnPhase::Closed,
                    TunnelConnAction { work: TunnelWork::Exit, gauge: GaugeChange::Dec },
                )
            }
        },
        (TunnelConnPhase::Serving { route_gen }, TunnelConnEvent::Batch { route_version }) => (
            TunnelConnPhase::Serving { route_gen: route_version },
            TunnelConnAction {
                work: TunnelWork::Process { reresolve: route_version != route_gen },
                gauge: keep,
            },
        ),
        (TunnelConnPhase::Serving { .. }, TunnelConnEvent::Cancelled) => (
            TunnelConnPhase::Closed,
            TunnelConnAction { work: TunnelWork::Exit, gauge: GaugeChange::Dec },
        ),
        (TunnelConnPhase::Serving { .. }, TunnelConnEvent::ReadFailed) => (
            TunnelConnPhase::Closed,
            TunnelConnAction { work: TunnelWork::Exit, gauge: GaugeChange::Dec },
        ),
        (TunnelConnPhase::Serving { .. }, TunnelConnEvent::FlushFailed) => (
            TunnelConnPhase::Closed,
            TunnelConnAction { work: TunnelWork::Exit, gauge: GaugeChange::Dec },
        ),
        _ => (phase, TunnelConnAction { work: TunnelWork::Ignore, gauge: keep }),
    }
}

/// The active-connection count a reader holds in a phase: one from the
/// moment it is admitted until it closes.
pub open spec fn held(phase: TunnelConnPhase) -> int {
    match phase {
        TunnelConnPhase::Start => 0,
        TunnelConnPhase::Closed => 0,
        _ => 1,
    }
}

pub open spec fn gauge_delta(g: GaugeChange) -> int {
    match g {
        GaugeChange::Keep => 0,
        GaugeChange::Inc => 1,
        GaugeChange::Dec => -1,
    }
}

/// The phase after a run of events, and the summed gauge changes.
pub open spec fn run_tunnel_conn(phase: TunnelConnPhase, events: Seq<TunnelConnEvent>) -> (
    TunnelConnPhase,
    int,
)
    decreases events.len(),
{
    if events.len() == 0 {
        (phase, 0)
    } else {
        let (mid, sum) = run_tunnel_conn(phase, events.drop_last());
        let (next, a) = spec_tunnel_conn_step(mid, events.last());
        (next, sum + gauge_delta(a.gauge))
    }
}

proof fn lemma_step_gauge(phase: TunnelConnPhase, event: TunnelConnEvent)
    ensures
        gauge_delta(spec_tunnel_conn_step(phase, event).1.gauge) == held(
            spec_tunnel_conn_step(phase, event).0,
        ) - held(phase),
{
}

/// The active-connection gauge is balanced: along any run of events from a
/// fresh connection, the summed changes equal the count the reader holds,
/// which is 0 or 1 after every step (no decrement without an increment, no
/// second increment), and 0 once the reader has closed.
pub proof fn law_tunnel_conn_gauge_balanced(events: Seq<TunnelConnEvent>)
    ensures
        run_tunnel_conn(TunnelConnPhase::Start, events).1 == held(
            run_tunnel_conn(TunnelConnPhase::Start, events).0,
        ),
        0 <= run_tunnel_conn(TunnelConnPhase::Start, events).1 <= 1,
        run_tunnel_conn(TunnelConnPhase::Start, events).0 == TunnelConnPhase::Closed ==> run_tunnel_conn(
            TunnelConnPhase::Start,
            events,
        ).1 == 0,
    decreases events.len(),
{
    if events.len() > 0 {
        law_tunnel_conn_gauge_balanced(events.drop_last());
        let (mid, _) = run_tunnel_conn(TunnelConnPhase::Start, events.drop_last());
        lemma_step_gauge(mid, events.last());
    }
}

// ---------------------------------------------------------------------------
// Per-peer pump
// ---------------------------------------------------------------------------

/// Where the pump stands.
#[derive(Debug, Clone, Copy, PartialEq, Eq, Structural)]
pub enum PumpPhase {
    /// At the top of the loop: the ownership epoch is checked next.
    Top,
    /// Waiting for the scheduler's next packet.
    AwaitDequeue,
    /// Queues empty: waiting for new work or a quiet period.
    Idle,
    /// The running flag was cleared after a quiet period; waiting for the
    /// queue check that follows.
    AwaitStop,
    /// A logical packet is being transmitted.
    AwaitTransmit,
    /// Backing off after a stall.
    Backoff,
    /// The pump task has ended.
    Exited,
}

/// The pump's state: its phase and whether a partly sent packet is stashed.
#[derive(Debug, Clone, Copy, PartialEq, Eq, Structural)]
pub struct PumpState {
    pub phase: PumpPhase,
    pub stashed: bool,
}

/// How transmitting one logical packet ended.
#[derive(Debug, Clone, Copy, PartialEq, Eq, Structural)]
pub enum TransmitEnded {
    /// Fully sent.
    Done,
    /// The transport is full: the cursor is kept to resume.
    Full,
    /// No connection: the packet was requeued and a dial was started.
    NoConnection,
    /// Dropped (too large, or out of restarts).
    Dropped,
}

/// What the caller observed.
#[derive(Debug, Clone, Copy, PartialEq, Eq, Structural)]
pub enum PumpEvent {
    /// The ownership epoch changed since the pump started (teardown).
    EpochChanged,
    /// The ownership epoch is unchanged.
    EpochSame,
    /// The scheduler had nothing to send.
    DequeuedEmpty,
    /// The scheduler gave a packet.
    DequeuedPacket,
    /// New work was signalled.
    Notified,
    /// The quiet period passed; whether the queues are empty.
    QuietPeriod { empty: bool },
    /// After clearing the running flag: whether the queues are empty, and
    /// whether this pump took the flag back.
    AfterStop { empty: bool, reclaimed: bool },
    /// Transmitting ended so.
    Transmitted(TransmitEnded),
    /// The backoff wait ended (new work or timeout).
    Woke,
}

/// The work the caller performs next.
#[derive(Debug, Clone, Copy, PartialEq, Eq, Structural)]
pub enum PumpAction {
    /// Check the ownership epoch.
    CheckEpoch,
    /// Clear the scheduler, zero the peer's queue gauges, drop any stashed
    /// packet, clear the running flag and end.
    ClearAndExit,
    /// Ask the scheduler for the next packet.
    Dequeue,
    /// Transmit the stashed packet (`resume`) or the one just dequeued.
    Transmit { resume: bool },
    /// Reconcile the queue gauges and wait for work or a quiet period.
    WaitIdle,
    /// Clear the running flag.
    StopRunning,
    /// Zero the peer's queue gauges and end.
    ZeroAndExit,
    /// Count the sent packet and reconcile the gauges.
    CountSent,
    /// Keep the cursor, count a full transport and back off adaptively.
    StashAndBackoff,
    /// Back off briefly (the packet was requeued).
    WaitBriefly,
    /// Count the drop and reconcile the gauges.
    CountDropped,
    /// The event does not apply in this phase: nothing to do.
    Ignore,
}

pub open spec fn pstate(phase: PumpPhase, stashed: bool) -> PumpState {
    PumpState { phase, stashed }
}

/// One step of the per-peer pump. A changed epoch clears everything and
/// ends the pump. A stashed packet is resumed before anything is dequeued.
/// Empty queues make the pump wait; after a quiet period with empty queues
/// it clears its running flag and ends, unless work arrived meanwhile
/// (then it goes on). A full transport keeps the packet stashed and backs
/// off; a missing connection requeues it (inside the transmit) and waits.
pub open spec fn spec_pump_step(s: PumpState, e: PumpEvent) -> (PumpState, PumpAction) {
    match (s.phase, e) {
        (PumpPhase::Top, PumpEvent::EpochChanged) => (
            pstate(PumpPhase::Exited, false),
            PumpAction::ClearAndExit,
        ),
        (PumpPhase::Top, PumpEvent::EpochSame) => if s.stashed {
            (pstate(PumpPhase::AwaitTransmit, false), PumpAction::Transmit { resume: true })
        } else {
            (pstate(PumpPhase::AwaitDequeue, false), PumpAction::Dequeue)
        },
        (PumpPhase::AwaitDequeue, PumpEvent::DequeuedEmpty) => (
            pstate(PumpPhase::Idle, s.stashed),
            PumpAction::WaitIdle,
        ),
        (PumpPhase::AwaitDequeue, PumpEvent::DequeuedPacket) => (
            pstate(PumpPhase::AwaitTransmit, s.stashed),
            PumpAction::Transmit { resume: false },
        ),
        (PumpPhase::Idle, PumpEvent::Notified) => (
            pstate(PumpPhase::Top, s.stashed),
            PumpAction::CheckEpoch,
        ),
        (PumpPhase::Idle, PumpEvent::QuietPeriod { empty }) => if empty {
            (pstate(PumpPhase::AwaitStop, s.stashed), PumpAction::StopRunning)
        } else {
            (pstate(PumpPhase::Top, s.stashed), PumpAction::CheckEpoch)
        },
        (PumpPhase::AwaitStop, PumpEvent::AfterStop { empty, reclaimed }) => if !empty && reclaimed {
            (pstate(PumpPhase::Top, s.stashed), PumpAction::CheckEpoch)
        } else if empty {
            (pstate(PumpPhase::Exited, s.stashed), PumpAction::ZeroAndExit)
        } else {
            (pstate(PumpPhase::Top, s.stashed), PumpAction::CheckEpoch)
        },
        (PumpPhase::AwaitTransmit, PumpEvent::Transmitted(t)) => match t {
            TransmitEnded::Done => (pstate(PumpPhase::Top, false), PumpAction::CountSent),
            TransmitEnded::Full => (pstate(PumpPhase::Backoff, true), PumpAction::StashAndBackoff),
            TransmitEnded::NoConnection => (
                pstate(PumpPhase::Backoff, false),
                PumpAction::WaitBriefly,
            ),
            TransmitEnded::Dropped => (pstate(PumpPhase::Top, false), PumpAction::CountDropped),
        },
        (PumpPhase::Backoff, PumpEvent::Woke) => (
            pstate(PumpPhase::Top, s.stashed),
            PumpAction::CheckEpoch,
        ),
        _ => (s, PumpAction::Ignore),
    }
}

pub fn pump_step(s: PumpState, e: PumpEvent) -> (r: (PumpState, PumpAction))
    ensures
        r == spec_pump_step(s, e),
{
    let st = s.stashed;
    match (s.phase, e) {
        (PumpPhase::Top, PumpEvent::EpochChanged) => (
            PumpState { phase: PumpPhase::Exited, stashed: false },
            PumpAction::ClearAndExit,
        ),
        (PumpPhase::Top, PumpEvent::EpochSame) => if st {
            (
                PumpState { phase: PumpPhase::AwaitTransmit, stashed: false },
                PumpAction::Transmit { resume: true },
            )
        } else {
            (PumpState { phase: PumpPhase::AwaitDequeue, stashed: false }, PumpAction::Dequeue)
        },
        (PumpPhase::AwaitDequeue, PumpEvent::DequeuedEmpty) => (
            PumpState { phase: PumpPhase::Idle, stashed: st },
            PumpAction::WaitIdle,
        ),
        (PumpPhase::AwaitDequeue, PumpEvent::DequeuedPacket) => (
            PumpState { phase: PumpPhase::AwaitTransmit, stashed: st },
            PumpAction::Transmit { resume: false },
        ),
        (PumpPhase::Idle, PumpEvent::Notified) => (
            PumpState { phase: PumpPhase::Top, stashed: st },
            PumpAction::CheckEpoch,
        ),
        (PumpPhase::Idle, PumpEvent::QuietPeriod { empty }) => if empty {
            (PumpState { phase: PumpPhase::AwaitStop, stashed: st }, PumpAction::StopRunning)
        } else {
            (PumpState { phase: PumpPhase::Top, stashed: st }, PumpAction::CheckEpoch)
        },
        (PumpPhase::AwaitStop, PumpEvent::AfterStop { empty, reclaimed }) => if !empty && reclaimed {
            (PumpState { phase: PumpPhase::Top, stashed: st }, PumpAction::CheckEpoch)
        } else if empty {
            (PumpState { phase: PumpPhase::Exited, stashed: st }, PumpAction::ZeroAndExit)
        } else {
            (PumpState { phase: PumpPhase::Top, stashed: st }, PumpAction::CheckEpoch)
        },
        (PumpPhase::AwaitTransmit, PumpEvent::Transmitted(t)) => match t {
            TransmitEnded::Done => (
                PumpState { phase: PumpPhase::Top, stashed: false },
                PumpAction::CountSent,
            ),
            TransmitEnded::Full => (
                PumpState { phase: PumpPhase::Backoff, stashed: true },
                PumpAction::StashAndBackoff,
            ),
            TransmitEnded::NoConnection => (
                PumpState { phase: PumpPhase::Backoff, stashed: false },
                PumpAction::WaitBriefly,
            ),
            TransmitEnded::Dropped => (
                PumpState { phase: PumpPhase::Top, stashed: false },
                PumpAction::CountDropped,
            ),
        },
        (PumpPhase::Backoff, PumpEvent::Woke) => (
            PumpState { phase: PumpPhase::Top, stashed: st },
            PumpAction::CheckEpoch,
        ),
        _ => (s, PumpAction::Ignore),
    }
}

/// The initial state of a pump: at the top of its loop, nothing stashed.
pub open spec fn pump_start() -> PumpState {
    pstate(PumpPhase::Top, false)
}

/// The state after a run of events.
pub open spec fn run_pump(s: PumpState, events: Seq<PumpEvent>) -> PumpState
    decreases events.len(),
{
    if events.len() == 0 {
        s
    } else {
        spec_pump_step(run_pump(s, events.drop_last()), events.last()).0
    }
}

/// A packet is stashed only at the top of the loop or while backing off,
/// as every state the pump reaches from its start is.
pub open spec fn pump_consistent(s: PumpState) -> bool {
    s.stashed ==> s.phase == PumpPhase::Top || s.phase == PumpPhase::Backoff
}

/// The check after a quiet period found the queues empty.
pub open spec fn quiet_and_empty(e: PumpEvent) -> bool {
    match e {
        PumpEvent::AfterStop { empty, .. } => empty,
        _ => false,
    }
}

/// A stashed packet is never lost: a step that leaves nothing stashed
/// from a state with a stashed packet either resumes it (transmits it) or
/// clears everything on an ownership change. And the pump ends only by
/// clearing on an epoch change or after a quiet period with empty queues;
/// once ended it stays ended.
pub proof fn law_pump_keeps_stash_until_resumed(s: PumpState, e: PumpEvent)
    requires
        pump_consistent(s),
    ensures
        pump_consistent(spec_pump_step(s, e).0),
        s.stashed && !spec_pump_step(s, e).0.stashed ==> spec_pump_step(s, e).1 == (PumpAction::Transmit {
            resume: true,
        }) || spec_pump_step(s, e).1 == PumpAction::ClearAndExit,
        s.phase != PumpPhase::Exited && spec_pump_step(s, e).0.phase == PumpPhase::Exited ==> (
        spec_pump_step(s, e).1 == PumpAction::ClearAndExit || (spec_pump_step(s, e).1
            == PumpAction::ZeroAndExit && quiet_and_empty(e))),
        s.phase == PumpPhase::Exited ==> spec_pump_step(s, e).0 == s,
{
}

/// Every state a pump reaches from its start is consistent.
pub proof fn law_pump_runs_stay_consistent(events: Seq<PumpEvent>)
    ensures
        pump_consistent(run_pump(pump_start(), events)),
    decreases events.len(),
{
    if events.len() > 0 {
        law_pump_runs_stay_consistent(events.drop_last());
        law_pump_keeps_stash_until_resumed(run_pump(pump_start(), events.drop_last()), events.last());
    }
}

/// Along any run of events, a packet that is stashed at some point is still
/// stashed until the step that resumes it or clears the pump: a run whose
/// every step neither resumes nor clears keeps it stashed.
pub proof fn law_pump_stash_survives_run(s: PumpState, events: Seq<PumpEvent>)
    requires
        s.stashed,
        pump_consistent(s),
        forall|i: int|
            0 <= i < events.len() ==> {
                let a = spec_pump_step(run_pump(s, events.take(i)), #[trigger] events[i]).1;
                a != (PumpAction::Transmit { resume: true }) && a != PumpAction::ClearAndExit
            },
    ensures
        run_pump(s, events).stashed,
        pump_consistent(run_pump(s, events)),
    decreases events.len(),
{
    if events.len() > 0 {
        let init = events.drop_last();
        assert forall|i: int| 0 <= i < init.len() implies {
            let a = spec_pump_step(run_pump(s, init.take(i)), #[trigger] init[i]).1;
            a != (PumpAction::Transmit { resume: true }) && a != PumpAction::ClearAndExit
        } by {
            assert(init.take(i) =~= events.take(i));
            assert(init[i] == events[i]);
        }
        law_pump_stash_survives_run(s, init);
        let i = events.len() - 1;
        assert(events.take(i) =~= init);
        law_pump_keeps_stash_until_resumed(run_pump(s, init), events[i]);
    }
}

} // verus!
