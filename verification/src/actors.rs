//! The agent's posture and presence actors: for each message, the state
//! the actor moves to and the work it asks for. The actor runtime performs
//! the work (collection, reporting, stopping) and delivers the messages.

use vstd::prelude::*;
use vstd::string::*;

verus! {

/// Collect posture attributes once more.
#[derive(Debug, Clone, Copy)]
pub struct Recheck;

/// The first collection after start, reported in full.
#[derive(Debug, Clone, Copy)]
pub struct TriggerInitialCollect;

/// New posture collection settings.
#[derive(Debug, Clone)]
pub struct ApplyPostureConfig {
    pub interval_secs: u64,
    /// Collectors to run; empty means the engine's defaults.
    pub enabled_collectors: Vec<String>,
    /// Custom collection scripts, as configured.
    pub custom_scripts: Vec<String>,
}

/// The control plane's verdict on the device's posture.
#[derive(Debug, Clone)]
pub struct PostureStatusChanged {
    /// Whether each evaluated posture passed.
    pub postures_passed: Vec<bool>,
    pub enforcement_action: String,
    pub grace_secs: Option<u64>,
    pub remediation: Vec<String>,
}

/// A collection finished.
#[derive(Debug, Clone, Copy)]
pub struct CollectorChanged;

/// A request for the posture engine.
#[derive(Debug, Clone, Copy)]
pub struct GetPostureEngine;

/// Stop the actor.
#[derive(Debug, Clone, Copy)]
pub struct ShutdownPosture;

/// A message to the posture actor.
#[derive(Debug, Clone)]
pub enum PostureMsg {
    Recheck(Recheck),
    TriggerInitialCollect(TriggerInitialCollect),
    ApplyPostureConfig(ApplyPostureConfig),
    PostureStatusChanged(PostureStatusChanged),
    CollectorChanged(CollectorChanged),
    GetPostureEngine(GetPostureEngine),
    ShutdownPosture(ShutdownPosture),
    /// An owned service loop (engine or reporter) ended on its own.
    LoopExited,
}

/// Shortest posture collection interval, in seconds.
pub const MIN_POSTURE_INTERVAL_SECS: u64 = 30;

/// What the posture actor asks of the runtime after a message.
#[derive(Debug, Clone)]
pub enum PostureAction {
    Nothing,
    /// Collect once, off the mailbox.
    CollectOnce,
    /// Collect once and report every attribute to the control plane.
    CollectAndReportFull,
    /// Reconfigure the engine (interval in seconds; `None` collectors for
    /// the defaults), then collect once.
    Reconfigure { interval_secs: u64, collectors: Option<Vec<String>>, scripts: Vec<String> },
    /// Log the compliance outcome: how many postures fail.
    ReportCompliance { failing: usize },
    /// Stop the actor (owned loops are cancelled and joined).
    Stop,
    /// An owned loop died: fail so supervision restarts the actor.
    Restart,
}

/// Whether traffic from this device is allowed as far as posture goes:
/// anything but a `revoke` enforcement keeps it allowed.
pub open spec fn posture_allows(action: Seq<char>) -> bool {
    action != "revoke"@
}

/// Number of `false` entries.
pub open spec fn count_failing(ps: Seq<bool>) -> nat
    decreases ps.len(),
{
    if ps.len() == 0 {
        0
    } else {
        count_failing(ps.drop_last()) + if ps.last() {
            0nat
        } else {
            1nat
        }
    }
}

fn failing_count(ps: &Vec<bool>) -> (n: usize)
    ensures
        n == count_failing(ps@),
{
    let mut n: usize = 0;
    let mut i: usize = 0;
    while i < ps.len()
        invariant
            i <= ps@.len(),
            n == count_failing(ps@.take(i as int)),
            n <= i,
        decreases ps@.len() - i,
    {
        proof {
            assert(ps@.take(i as int + 1).drop_last() =~= ps@.take(i as int));
        }
        if !ps[i] {
            n = n + 1;
        }
        i = i + 1;
    }
    assert(ps@.take(ps@.len() as int) =~= ps@);
    n
}

/// Handles one message: returns whether posture allows traffic afterwards
/// (`allowed` before) and the work to do.
pub fn posture_step(allowed: bool, msg: PostureMsg) -> (r: (bool, PostureAction))
    ensures
        (match msg {
            PostureMsg::PostureStatusChanged(m) => r.0 == posture_allows(m.enforcement_action@),
            _ => r.0 == allowed,
        }),
        (match msg {
            PostureMsg::Recheck(_) => r.1 is CollectOnce,
            PostureMsg::TriggerInitialCollect(_) => r.1 is CollectAndReportFull,
            PostureMsg::ApplyPostureConfig(m) => (r.1 matches PostureAction::Reconfigure {
                interval_secs,
                collectors,
                scripts,
            } && interval_secs == (if m.interval_secs < MIN_POSTURE_INTERVAL_SECS {
                MIN_POSTURE_INTERVAL_SECS
            } else {
                m.interval_secs
            }) && (m.enabled_collectors@.len() == 0 <==> collectors is None) && (collectors matches Some(
                c,
            ) ==> c@ == m.enabled_collectors@) && scripts@ == m.custom_scripts@),
            PostureMsg::PostureStatusChanged(m) => (r.1 matches PostureAction::ReportCompliance {
                failing,
            } && failing == count_failing(m.postures_passed@)),
            PostureMsg::CollectorChanged(_) => r.1 is Nothing,
            PostureMsg::GetPostureEngine(_) => r.1 is Nothing,
            PostureMsg::ShutdownPosture(_) => r.1 is Stop,
            PostureMsg::LoopExited => r.1 is Restart,
        }),
{
    match msg {
        PostureMsg::Recheck(_) => (allowed, PostureAction::CollectOnce),
        PostureMsg::TriggerInitialCollect(_) => (allowed, PostureAction::CollectAndReportFull),
        PostureMsg::ApplyPostureConfig(m) => {
            let interval_secs = if m.interval_secs < MIN_POSTURE_INTERVAL_SECS {
                MIN_POSTURE_INTERVAL_SECS
            } else {
                m.interval_secs
            };
            let collectors = if m.enabled_collectors.len() == 0 {
                None
            } else {
                Some(m.enabled_collectors)
            };
            (allowed, PostureAction::Reconfigure { interval_secs, collectors, scripts: m.custom_scripts })
        },
        PostureMsg::PostureStatusChanged(m) => {
            let failing = failing_count(&m.postures_passed);
            let ok = !(m.enforcement_action == String::from_str("revoke"));
            (ok, PostureAction::ReportCompliance { failing })
        },
        PostureMsg::CollectorChanged(_) => (allowed, PostureAction::Nothing),
        PostureMsg::GetPostureEngine(_) => (allowed, PostureAction::Nothing),
        PostureMsg::ShutdownPosture(_) => (allowed, PostureAction::Stop),
        PostureMsg::LoopExited => (allowed, PostureAction::Restart),
    }
}

/// A request for the presence actor's status.
#[derive(Debug, Clone, Copy)]
pub struct GetPresenceStatus;

/// Stop the presence actor.
#[derive(Debug, Clone, Copy)]
pub struct ShutdownPresence;

/// The presence actor's answer to `GetPresenceStatus`.
#[derive(Debug, Clone, Copy)]
pub struct PresenceStatus {
    pub network_id: u128,
    pub running: bool,
}

/// The presence status: running unless its task exists and was cancelled.
pub fn presence_status(network_id: u128, has_task: bool, task_cancelled: bool) -> (s: PresenceStatus)
    ensures
        s.network_id == network_id,
        s.running == (!has_task || !task_cancelled),
{
    PresenceStatus { network_id, running: !has_task || !task_cancelled }
}

} // verus!
