//! Admission of inbound peer connections, per protocol: whether the agent
//! takes a connection, closes it (with which code and reason), or skips it.
//! The caller performs the close, the pool adoption and the serving.

use vstd::prelude::*;
use vstd::string::*;

verus! {

/// What happens first to an inbound tunnel connection.
#[derive(Debug, Clone, Copy, PartialEq, Eq)]
pub enum TunnelAdmission {
    /// Close it with this application code and reason.
    Close { code: u32, reason: &'static str },
    /// Offer it to the connection pool, as the latency or the bulk
    /// connection of its peer.
    Adopt { latency: bool },
}

/// An inbound tunnel connection is closed with code 1 and reason
/// `dataplane_down` while no TUN device is up; otherwise it is offered to
/// the pool as its peer's latency connection (latency ALPN) or bulk one.
pub fn tunnel_accept(device_up: bool, is_latency: bool) -> (a: TunnelAdmission)
    ensures
        !device_up ==> (a matches TunnelAdmission::Close { code, reason } && code == 1 && reason@
            == "dataplane_down"@),
        device_up ==> a == (TunnelAdmission::Adopt { latency: is_latency }),
{
    if !device_up {
        proof {
            reveal_strlit("dataplane_down");
        }
        return TunnelAdmission::Close { code: 1, reason: "dataplane_down" };
    }
    TunnelAdmission::Adopt { latency: is_latency }
}

/// What happens to a tunnel connection after the pool was offered it.
#[derive(Debug, Clone, Copy, PartialEq, Eq)]
pub enum TunnelServe {
    /// Close it with this application code and reason.
    Close { code: u32, reason: &'static str },
    /// Start its reader (replacing the peer's previous one of the same
    /// kind); `canonical` when it becomes the peer's connection for
    /// outbound traffic too.
    Serve { latency: bool, canonical: bool },
}

/// A connection the pool did not install is closed with code 0 and reason
/// `superseded`; an installed one gets a reader, which makes it the
/// canonical connection only when it is the bulk one.
pub fn tunnel_after_adopt(adopted: bool, is_latency: bool) -> (s: TunnelServe)
    ensures
        !adopted ==> (s matches TunnelServe::Close { code, reason } && code == 0 && reason@
            == "superseded"@),
        adopted ==> s == (TunnelServe::Serve { latency: is_latency, canonical: !is_latency }),
{
    if !adopted {
        proof {
            reveal_strlit("superseded");
        }
        return TunnelServe::Close { code: 0, reason: "superseded" };
    }
    TunnelServe::Serve { latency: is_latency, canonical: !is_latency }
}

/// The close of a direct-mode authentication connection: `None` means the
/// handshake runs; `Some` closes at once (the agent is not in Direct mode).
pub fn auth_accept(direct_mode: bool) -> (c: Option<(u32, &'static str)>)
    ensures
        direct_mode ==> c is None,
        !direct_mode ==> (c matches Some((code, reason)) && code == 0 && reason@ == "not_direct"@),
{
    if direct_mode {
        None
    } else {
        proof {
            reveal_strlit("not_direct");
        }
        Some((0, "not_direct"))
    }
}

/// The close after the authentication handshake: code 0 `done` once it
/// succeeded (whatever the post-auth request did), code 401 `auth_failed`
/// when it failed.
pub fn auth_close(handshake_ok: bool) -> (c: (u32, &'static str))
    ensures
        handshake_ok ==> c.0 == 0 && c.1@ == "done"@,
        !handshake_ok ==> c.0 == 401 && c.1@ == "auth_failed"@,
{
    proof {
        reveal_strlit("done");
        reveal_strlit("auth_failed");
    }
    if handshake_ok {
        (0, "done")
    } else {
        (401, "auth_failed")
    }
}

/// Whether a shared-documents connection is handed to the documents
/// engine: only in Direct mode (`peer_authenticated` is `Some`), from an
/// authenticated peer, when the engine exists.
pub fn docs_accept(peer_authenticated: Option<bool>, has_docs: bool) -> (b: bool)
    ensures
        b == (peer_authenticated == Some(true) && has_docs),
{
    match peer_authenticated {
        Some(true) => has_docs,
        _ => false,
    }
}

/// Whether a gossip connection is handed to the gossip engine: refused from
/// a peer that Direct mode has not authenticated; otherwise taken when the
/// engine exists. Outside Direct mode (`peer_authenticated` is `None`) any
/// peer may gossip.
pub fn gossip_accept(peer_authenticated: Option<bool>, has_gossip: bool) -> (b: bool)
    ensures
        b == (peer_authenticated != Some(false) && has_gossip),
{
    match peer_authenticated {
        Some(false) => false,
        _ => has_gossip,
    }
}

/// What happens to a session-recording connection.
#[derive(Debug, Clone, Copy, PartialEq, Eq, Structural)]
pub enum RecordingAdmission {
    /// The recorder is off: the connection is ignored.
    Ignore,
    /// The recording is received into the store.
    Serve,
    /// The recorder is on but has no store: a warning, nothing served.
    MissingStore,
}

/// A recording connection is served only when the recorder is enabled and
/// has a store.
pub fn recording_accept(enabled: bool, has_store: bool) -> (a: RecordingAdmission)
    ensures
        !enabled ==> a == RecordingAdmission::Ignore,
        enabled && has_store ==> a == RecordingAdmission::Serve,
        enabled && !has_store ==> a == RecordingAdmission::MissingStore,
{
    if !enabled {
        RecordingAdmission::Ignore
    } else if has_store {
        RecordingAdmission::Serve
    } else {
        RecordingAdmission::MissingStore
    }
}

} // verus!
