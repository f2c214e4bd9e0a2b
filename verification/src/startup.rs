//! Agent start-up decisions: the settings the agent derives from its
//! environment and configuration before it brings the data plane up.

use crate::labels::{trim, trim_range};
use crate::routes::Net4;
use crate::underlay::{skip_prefixes, strip_prefixes};
use vstd::prelude::*;
use vstd::string::*;

verus! {

/// Whether connections are kept alive: `TUNNET_KEEP_ALIVE` (its value read
/// by the caller) turns it off with `0`, `false` or `off`; the flag turns it
/// on in any case.
pub fn keep_alive_enabled(env_value: Option<&str>, flag: bool) -> (b: bool)
    ensures
        b == (flag || match env_value {
            Some(v) => !(v@ == "0"@ || v@ == "false"@ || v@ == "off"@),
            None => true,
        }),
{
    let from_env = match env_value {
        Some(v) => {
            let t = String::from_str(v);
            !(t == String::from_str("0") || t == String::from_str("false") || t == String::from_str(
                "off",
            ))
        },
        None => true,
    };
    from_env || flag
}

/// The hostname the agent reports: `HOSTNAME`, else `COMPUTERNAME` (values
/// read by the caller), else `tunnet-agent`.
pub fn agent_hostname(env_hostname: Option<String>, env_computername: Option<String>) -> (h: String)
    ensures
        h@ == (match (env_hostname, env_computername) {
            (Some(e), _) => e@,
            (None, Some(e)) => e@,
            (None, None) => "tunnet-agent"@,
        }),
{
    match env_hostname {
        Some(e) => e,
        None => match env_computername {
            Some(e) => e,
            None => String::from_str("tunnet-agent"),
        },
    }
}

/// Smallest tunnel MTU a managed network may configure.
pub const MIN_TUNNEL_MTU: u16 = 576;

/// Prefix length of a Direct network's address.
pub const DIRECT_PREFIX: u8 = 10;

/// Tunnel MTU of a Direct network.
pub const DIRECT_MTU: u16 = 1280;

/// The tunnel MTU of a managed network: the configured one, at least
/// `MIN_TUNNEL_MTU`.
pub fn managed_tunnel_mtu(configured: u16) -> (m: u16)
    ensures
        m == (if configured < MIN_TUNNEL_MTU {
            MIN_TUNNEL_MTU
        } else {
            configured
        }),
{
    if configured < MIN_TUNNEL_MTU {
        MIN_TUNNEL_MTU
    } else {
        configured
    }
}

/// A subnet route of a network: the subnet and the endpoint it goes via.
#[derive(Debug, Clone)]
pub struct SubnetRoute {
    pub cidr: Net4,
    pub via_endpoint_id: String,
}

/// The subnets routed through other endpoints, in order.
pub open spec fn remote_cidrs(rs: Seq<SubnetRoute>, self_id: Seq<char>) -> Seq<Net4>
    decreases rs.len(),
{
    if rs.len() == 0 {
        Seq::empty()
    } else if rs.last().via_endpoint_id@ != self_id {
        remote_cidrs(rs.drop_last(), self_id).push(rs.last().cidr)
    } else {
        remote_cidrs(rs.drop_last(), self_id)
    }
}

/// The subnets the system routes into the tunnel: those advertised via
/// other endpoints.
pub fn remote_subnets(routes: &Vec<SubnetRoute>, self_endpoint_id: &String) -> (r: Vec<Net4>)
    ensures
        r@ == remote_cidrs(routes@, self_endpoint_id@),
{
    let mut out: Vec<Net4> = Vec::new();
    let mut i: usize = 0;
    while i < routes.len()
        invariant
            i <= routes@.len(),
            out@ == remote_cidrs(routes@.take(i as int), self_endpoint_id@),
        decreases routes@.len() - i,
    {
        proof {
            assert(routes@.take(i as int + 1).drop_last() =~= routes@.take(i as int));
        }
        if !(routes[i].via_endpoint_id == *self_endpoint_id) {
            out.push(routes[i].cidr);
        }
        i = i + 1;
    }
    assert(routes@.take(routes@.len() as int) =~= routes@);
    out
}

/// The Unicode lowercase of `s`, as `str::to_lowercase` maps it.
pub uninterp spec fn lowercase_of(s: Seq<char>) -> Seq<char>;

/// Calls `str::to_lowercase`. The contract names its result.
#[verifier::external_body]
fn to_lowercase(s: &str) -> (r: String)
    ensures
        r@ == lowercase_of(s@),
{
    s.to_lowercase()
}

/// A configured self tag as requested: trimmed, without leading `tag:`
/// prefixes, lowercased.
pub open spec fn wanted_tag(t: Seq<char>) -> Seq<char> {
    lowercase_of(strip_prefixes(trim(t), "tag:"@))
}

/// The self tags requested from the control plane, in order, empty ones
/// left out.
pub open spec fn wanted_tags(ts: Seq<String>) -> Seq<Seq<char>>
    decreases ts.len(),
{
    if ts.len() == 0 {
        Seq::empty()
    } else if wanted_tag(ts.last()@).len() > 0 {
        wanted_tags(ts.drop_last()).push(wanted_tag(ts.last()@))
    } else {
        wanted_tags(ts.drop_last())
    }
}

/// The self tags a managed agent asks the control plane for.
pub fn self_tags_wanted(tags: &Vec<String>) -> (r: Vec<String>)
    ensures
        r@.map_values(|s: String| s@) == wanted_tags(tags@),
{
    let mut out: Vec<String> = Vec::new();
    let mut i: usize = 0;
    proof {
        reveal_strlit("tag:");
    }
    while i < tags.len()
        invariant
            i <= tags@.len(),
            out@.map_values(|s: String| s@) == wanted_tags(tags@.take(i as int)),
            "tag:"@.len() == 4,
        decreases tags@.len() - i,
    {
        proof {
            assert(tags@.take(i as int + 1).drop_last() =~= tags@.take(i as int));
        }
        let t = tags[i].as_str();
        let n = t.unicode_len();
        let (a, b) = trim_range(t, 0, n);
        proof {
            assert(t@.subrange(0, n as int) =~= t@);
        }
        let c = skip_prefixes(t, a, b, "tag:");
        let core = t.substring_char(c, b);
        let lower = to_lowercase(core);
        if lower.as_str().unicode_len() > 0 {
            let ghost before = out@;
            out.push(lower);
            proof {
                assert(out@.map_values(|s: String| s@) =~= before.map_values(|s: String| s@).push(
                    lower@,
                ));
            }
        }
        i = i + 1;
    }
    assert(tags@.take(tags@.len() as int) =~= tags@);
    out
}

/// Arguments of the agent daemon's run.
#[derive(Debug, Clone)]
pub struct RunArgs {
    pub ifname: String,
    pub poll_secs: u64,
    pub metrics_bind: String,
    pub disable_gossip: bool,
    pub recorder: bool,
    pub no_mdns: bool,
    pub keep_alive: bool,
    pub no_encrypt_state: bool,
    /// Wintun driver file (Windows only).
    pub wintun_file: Option<String>,
}

/// The agent daemon's command line.
#[derive(Debug, Clone)]
pub struct DaemonCli {
    pub state_dir: Option<String>,
    pub json_logs: bool,
    /// Running as a Windows service.
    pub service: bool,
    pub run: RunArgs,
}

/// Which node services a starting agent runs.
#[derive(Debug, Clone, Copy, PartialEq, Eq, Structural)]
pub struct NodeSwitches {
    pub keep_alive: bool,
    pub gossip: bool,
    /// mDNS discovery (Direct networks only).
    pub mdns: bool,
}

/// The services a starting agent runs: keep-alive as `keep_alive_enabled`
/// reads it; gossip unless disabled, or whenever the service relay needs
/// it; mDNS in Direct mode when the configuration enables it by default and
/// the flag does not turn it off.
pub fn node_switches(
    args: &RunArgs,
    env_keep_alive: Option<&str>,
    service_relay: bool,
    is_direct: bool,
    mdns_default: bool,
) -> (s: NodeSwitches)
    ensures
        s.keep_alive == (args.keep_alive || match env_keep_alive {
            Some(v) => !(v@ == "0"@ || v@ == "false"@ || v@ == "off"@),
            None => true,
        }),
        s.gossip == (!args.disable_gossip || service_relay),
        s.mdns == (is_direct && mdns_default && !args.no_mdns),
{
    NodeSwitches {
        keep_alive: keep_alive_enabled(env_keep_alive, args.keep_alive),
        gossip: !args.disable_gossip || service_relay,
        mdns: is_direct && mdns_default && !args.no_mdns,
    }
}

} // verus!
