use tunnet::loops::{
    pump_step, tunnel_conn_step, GaugeChange, PumpAction, PumpEvent, PumpPhase, PumpState,
    TransmitEnded, TunnelConnAction, TunnelConnEvent, TunnelConnPhase, TunnelWork,
};

fn run(events: &[TunnelConnEvent]) -> (TunnelConnPhase, Vec<TunnelWork>, i32) {
    let mut phase = TunnelConnPhase::Start;
    let mut works = Vec::new();
    let mut gauge = 0;
    for e in events {
        let (next, TunnelConnAction { work, gauge: g }) = tunnel_conn_step(phase, *e);
        gauge += match g {
            GaugeChange::Inc => 1,
            GaugeChange::Dec => -1,
            GaugeChange::Keep => 0,
        };
        assert!((0..=1).contains(&gauge));
        works.push(work);
        phase = next;
    }
    (phase, works, gauge)
}

#[test]
fn denied_peer_is_closed_and_never_counted() {
    let (phase, works, gauge) =
        run(&[TunnelConnEvent::Admission { peer_allowed: false, has_pool: true }]);
    assert_eq!(phase, TunnelConnPhase::Closed);
    assert_eq!(works, vec![TunnelWork::CloseDenied]);
    assert_eq!(gauge, 0);
}

#[test]
fn unknown_peer_closed_with_no_route_and_gauge_returned() {
    let (phase, works, gauge) = run(&[
        TunnelConnEvent::Admission { peer_allowed: true, has_pool: true },
        TunnelConnEvent::Adopted(true),
        TunnelConnEvent::Resolved { found: false, route_version: 3 },
    ]);
    assert_eq!(phase, TunnelConnPhase::Closed);
    assert_eq!(works, vec![TunnelWork::Adopt, TunnelWork::Resolve, TunnelWork::CloseNoRoute]);
    assert_eq!(gauge, 0);
}

#[test]
fn lost_tie_break_exits_and_returns_gauge() {
    let (phase, works, gauge) = run(&[
        TunnelConnEvent::Admission { peer_allowed: true, has_pool: true },
        TunnelConnEvent::Adopted(false),
    ]);
    assert_eq!(phase, TunnelConnPhase::Closed);
    assert_eq!(works, vec![TunnelWork::Adopt, TunnelWork::Exit]);
    assert_eq!(gauge, 0);
}

#[test]
fn serving_reresolves_on_route_change_until_cancelled() {
    let (phase, works, gauge) = run(&[
        TunnelConnEvent::Admission { peer_allowed: true, has_pool: false },
        TunnelConnEvent::Resolved { found: true, route_version: 5 },
        TunnelConnEvent::Plane(true),
        TunnelConnEvent::Batch { route_version: 5 },
        TunnelConnEvent::Batch { route_version: 6 },
        TunnelConnEvent::Batch { route_version: 6 },
        TunnelConnEvent::Cancelled,
        TunnelConnEvent::ReadFailed,
    ]);
    assert_eq!(phase, TunnelConnPhase::Closed);
    assert_eq!(
        works,
        vec![
            TunnelWork::Resolve,
            TunnelWork::LoadPlane,
            TunnelWork::Read,
            TunnelWork::Process { reresolve: false },
            TunnelWork::Process { reresolve: true },
            TunnelWork::Process { reresolve: false },
            TunnelWork::Exit,
            TunnelWork::Ignore,
        ]
    );
    assert_eq!(gauge, 0);
}

fn top(stashed: bool) -> PumpState {
    PumpState { phase: PumpPhase::Top, stashed }
}

#[test]
fn pump_exits_on_epoch_change_dropping_stash() {
    assert_eq!(
        pump_step(top(true), PumpEvent::EpochChanged),
        (PumpState { phase: PumpPhase::Exited, stashed: false }, PumpAction::ClearAndExit)
    );
}

#[test]
fn pump_resumes_stash_before_dequeue() {
    assert_eq!(
        pump_step(top(true), PumpEvent::EpochSame),
        (PumpState { phase: PumpPhase::AwaitTransmit, stashed: false }, PumpAction::Transmit { resume: true })
    );
    assert_eq!(
        pump_step(top(false), PumpEvent::EpochSame),
        (PumpState { phase: PumpPhase::AwaitDequeue, stashed: false }, PumpAction::Dequeue)
    );
}

#[test]
fn pump_full_transport_stashes_and_no_connection_waits() {
    let sending = PumpState { phase: PumpPhase::AwaitTransmit, stashed: false };
    assert_eq!(
        pump_step(sending, PumpEvent::Transmitted(TransmitEnded::Full)),
        (PumpState { phase: PumpPhase::Backoff, stashed: true }, PumpAction::StashAndBackoff)
    );
    assert_eq!(
        pump_step(sending, PumpEvent::Transmitted(TransmitEnded::NoConnection)),
        (PumpState { phase: PumpPhase::Backoff, stashed: false }, PumpAction::WaitBriefly)
    );
    assert_eq!(
        pump_step(PumpState { phase: PumpPhase::Backoff, stashed: true }, PumpEvent::Woke),
        (top(true), PumpAction::CheckEpoch)
    );
}

#[test]
fn pump_idle_exits_only_when_still_empty() {
    let idle = PumpState { phase: PumpPhase::Idle, stashed: false };
    assert_eq!(pump_step(idle, PumpEvent::QuietPeriod { empty: false }).1, PumpAction::CheckEpoch);
    let (stop, a) = pump_step(idle, PumpEvent::QuietPeriod { empty: true });
    assert_eq!(a, PumpAction::StopRunning);
    assert_eq!(pump_step(stop, PumpEvent::AfterStop { empty: true, reclaimed: false }).1, PumpAction::ZeroAndExit);
    assert_eq!(pump_step(stop, PumpEvent::AfterStop { empty: false, reclaimed: true }).1, PumpAction::CheckEpoch);
    assert_eq!(pump_step(stop, PumpEvent::AfterStop { empty: false, reclaimed: false }).1, PumpAction::CheckEpoch);
}
