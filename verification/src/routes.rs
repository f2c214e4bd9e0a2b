//! OS route planning with diff-based reconciliation.
//!
//! The reconciler tracks the routes Tunnet installed and, for each desired
//! state, plans which routes to remove and which to add (in a safe order);
//! the caller performs the OS changes.

use vstd::prelude::*;

verus! {

/// An IPv4 network: an address and a prefix length of at most 32.
/// Addresses are the integers of their octets in network order.
#[derive(Debug, Clone, Copy, PartialEq, Eq, Hash, Structural)]
pub struct Net4 {
    pub addr: u32,
    pub prefix_len: u8,
}

impl Net4 {
    pub open spec fn valid(self) -> bool {
        self.prefix_len <= 32
    }

    /// A network from an address and prefix length; `None` when the prefix
    /// length exceeds 32.
    pub fn new(addr: u32, prefix_len: u8) -> (r: Option<Net4>)
        ensures
            prefix_len <= 32 ==> r == Some(Net4 { addr, prefix_len }),
            prefix_len > 32 ==> r is None,
    {
        if prefix_len > 32 {
            None
        } else {
            Some(Net4 { addr, prefix_len })
        }
    }

    /// The single-host network of an address.
    pub fn host(addr: u32) -> (r: Net4)
        ensures
            r == (Net4 { addr, prefix_len: 32 }),
    {
        Net4 { addr, prefix_len: 32 }
    }
}

/// The default route, 0.0.0.0/0.
pub open spec fn default_net() -> Net4 {
    Net4 { addr: 0, prefix_len: 0 }
}

/// The private ranges of RFC 1918: 10.0.0.0/8, 172.16.0.0/12, 192.168.0.0/16.
pub open spec fn spec_rfc1918() -> Seq<Net4> {
    seq![
        Net4 { addr: 0x0a00_0000, prefix_len: 8 },
        Net4 { addr: 0xac10_0000, prefix_len: 12 },
        Net4 { addr: 0xc0a8_0000, prefix_len: 16 },
    ]
}

pub fn rfc1918_nets() -> (r: Vec<Net4>)
    ensures
        r@ == spec_rfc1918(),
{
    let mut v = Vec::new();
    v.push(Net4 { addr: 0x0a00_0000, prefix_len: 8 });
    v.push(Net4 { addr: 0xac10_0000, prefix_len: 12 });
    v.push(Net4 { addr: 0xc0a8_0000, prefix_len: 16 });
    assert(v@ =~= spec_rfc1918());
    v
}

#[derive(Debug, Clone, Copy, PartialEq, Eq, Structural)]
pub enum SplitTunnelMode {
    Include,
    Exclude,
}

/// The parts of a device profile that decide its routes.
#[derive(Debug, Clone)]
pub struct DeviceProfile {
    pub split_tunnel_mode: SplitTunnelMode,
    pub split_tunnel_cidrs: Vec<Net4>,
    pub exit_node_endpoint_id: Option<String>,
    pub allow_local_lan: bool,
}

#[derive(Debug, Clone, Copy, PartialEq, Eq, Structural)]
pub enum RouteKind {
    ViaTun(Net4),
    ViaGw { cidr: Net4, gw: u32 },
}

/// Desired OS routing state for the agent dataplane.
#[derive(Debug, Clone)]
pub struct DesiredRoutes {
    pub ifname: String,
    pub profile: DeviceProfile,
    pub remote_subnets: Vec<Net4>,
    pub has_exit: bool,
    pub underlay_hosts: Vec<u32>,
}

/// Whether the profile sends all traffic through an exit node.
pub open spec fn exit_wanted(d: DesiredRoutes) -> bool {
    d.has_exit || d.profile.exit_node_endpoint_id is Some
}

/// The routes a desired state asks for, given the underlay gateway.
pub open spec fn in_route_set(d: DesiredRoutes, gateway: Option<u32>, r: RouteKind) -> bool {
    ||| exists|i: int| 0 <= i < d.remote_subnets@.len() && r == RouteKind::ViaTun(#[trigger] d.remote_subnets@[i])
    ||| (d.profile.split_tunnel_mode == SplitTunnelMode::Include && exists|i: int|
        0 <= i < d.profile.split_tunnel_cidrs@.len() && r == RouteKind::ViaTun(
            #[trigger] d.profile.split_tunnel_cidrs@[i],
        ))
    ||| (d.profile.split_tunnel_mode == SplitTunnelMode::Exclude && exit_wanted(d) && {
        ||| r == RouteKind::ViaTun(default_net())
        ||| (gateway matches Some(g) && {
            ||| exists|i: int|
                0 <= i < d.profile.split_tunnel_cidrs@.len() && r == (RouteKind::ViaGw {
                    cidr: #[trigger] d.profile.split_tunnel_cidrs@[i],
                    gw: g,
                })
            ||| (d.profile.allow_local_lan && exists|i: int|
                0 <= i < 3 && r == (RouteKind::ViaGw { cidr: #[trigger] spec_rfc1918()[i], gw: g }))
            ||| exists|i: int|
                0 <= i < d.underlay_hosts@.len() && r == (RouteKind::ViaGw {
                    cidr: Net4 { addr: #[trigger] d.underlay_hosts@[i], prefix_len: 32 },
                    gw: g,
                })
        })
    })
}

/// The route set that reconciliation aims for: without a known gateway an
/// exit node cannot be reached safely, so the exit part is left out.
pub open spec fn in_wanted(d: DesiredRoutes, gateway: Option<u32>, r: RouteKind) -> bool {
    if gateway is None && exit_wanted(d) && d.profile.split_tunnel_mode == SplitTunnelMode::Exclude {
        exists|i: int| 0 <= i < d.remote_subnets@.len() && r == RouteKind::ViaTun(#[trigger] d.remote_subnets@[i])
    } else {
        in_route_set(d, gateway, r)
    }
}

/// Total order key of a route: variant, then network address, prefix and
/// gateway.
pub open spec fn kind_key(r: RouteKind) -> int {
    match r {
        RouteKind::ViaTun(c) => c.addr * 0x100_0000_0000 + c.prefix_len * 0x1_0000_0000,
        RouteKind::ViaGw { cidr, gw } => 0x1_0000_0000_0000_0000 * 0x100 + cidr.addr * 0x100_0000_0000
            + cidr.prefix_len * 0x1_0000_0000 + gw,
    }
}

/// Installation class: host exclusions first, then other exclusions, then
/// tunnel routes, and the default route through the tunnel last.
pub open spec fn add_class(r: RouteKind) -> int {
    match r {
        RouteKind::ViaGw { cidr, .. } => if cidr.prefix_len == 32 { 0 } else { 1 },
        RouteKind::ViaTun(c) => if c.prefix_len == 0 { 3 } else { 2 },
    }
}

/// Key of the installation order.
pub open spec fn add_key(r: RouteKind) -> int {
    add_class(r) * 0x1_0000_0000_0000_0000_0000 + kind_key(r)
}

/// Key used to order a route list.
pub open spec fn order_key(r: RouteKind, by_class: bool) -> int {
    if by_class {
        add_key(r)
    } else {
        kind_key(r)
    }
}

/// Strictly increasing keys: sorted and without duplicates.
pub open spec fn sorted_by(s: Seq<RouteKind>, by_class: bool) -> bool {
    forall|i: int, j: int| 0 <= i < j < s.len() ==> order_key(#[trigger] s[i], by_class) < order_key(#[trigger] s[j], by_class)
}

pub proof fn lemma_kind_key_injective(a: RouteKind, b: RouteKind)
    ensures
        kind_key(a) == kind_key(b) ==> a == b,
        0 <= kind_key(a) < 0x2_0000_0000_0000_0000_00,
{
    match (a, b) {
        (RouteKind::ViaTun(x), RouteKind::ViaTun(y)) => {
            if kind_key(a) == kind_key(b) {
                assert(x.addr == y.addr);
                assert(x.prefix_len == y.prefix_len);
            }
        },
        (RouteKind::ViaGw { cidr: x, gw: g }, RouteKind::ViaGw { cidr: y, gw: h }) => {
            if kind_key(a) == kind_key(b) {
                assert(x.addr == y.addr);
                assert(x.prefix_len == y.prefix_len);
                assert(g == h);
            }
        },
        _ => {},
    }
}

pub proof fn lemma_order_key_injective(a: RouteKind, b: RouteKind, by_class: bool)
    ensures
        order_key(a, by_class) == order_key(b, by_class) ==> a == b,
{
    lemma_kind_key_injective(a, b);
    lemma_kind_key_injective(b, a);
}

fn kind_key_of(r: RouteKind) -> (k: u128)
    ensures
        k == kind_key(r),
{
    match r {
        RouteKind::ViaTun(c) => (c.addr as u128) * 0x100_0000_0000 + (c.prefix_len as u128) * 0x1_0000_0000,
        RouteKind::ViaGw { cidr, gw } => 0x1_0000_0000_0000_0000_00 + (cidr.addr as u128) * 0x100_0000_0000
            + (cidr.prefix_len as u128) * 0x1_0000_0000 + (gw as u128),
    }
}

fn order_key_of(r: RouteKind, by_class: bool) -> (k: u128)
    ensures
        k == order_key(r, by_class),
{
    let base = kind_key_of(r);
    if !by_class {
        return base;
    }
    let class: u128 = match r {
        RouteKind::ViaGw { cidr, .. } => if cidr.prefix_len == 32 { 0 } else { 1 },
        RouteKind::ViaTun(c) => if c.prefix_len == 0 { 3 } else { 2 },
    };
    proof {
        lemma_kind_key_injective(r, r);
    }
    class * 0x1_0000_0000_0000_0000_0000 + base
}

/// Insert a route into a sorted list unless it is already there.
fn insert_sorted(v: &mut Vec<RouteKind>, r: RouteKind, by_class: bool)
    requires
        sorted_by(old(v)@, by_class),
    ensures
        sorted_by(final(v)@, by_class),
        forall|x: RouteKind| #[trigger] final(v)@.contains(x) <==> (old(v)@.contains(x) || x == r),
{
    let key = order_key_of(r, by_class);
    let mut i: usize = 0;
    while i < v.len()
        invariant_except_break
            key == order_key(r, by_class),
            i <= v@.len(),
            v@ == old(v)@,
            sorted_by(v@, by_class),
            forall|j: int| 0 <= j < i ==> order_key(#[trigger] v@[j], by_class) < key,
        ensures
            key == order_key(r, by_class),
            i <= v@.len(),
            v@ == old(v)@,
            sorted_by(v@, by_class),
            forall|j: int| 0 <= j < i ==> order_key(#[trigger] v@[j], by_class) < key,
            i < v@.len() ==> order_key(v@[i as int], by_class) > key,
        decreases v@.len() - i,
    {
        let k = order_key_of(v[i], by_class);
        if k == key {
            proof {
                assert(order_key(v@[i as int], by_class) == k);
                assert(order_key(r, by_class) == key);
                assert(order_key(v@[i as int], by_class) == order_key(r, by_class));
                lemma_order_key_injective(v@[i as int], r, by_class);
                assert(v@[i as int] == r);
                assert(v@.contains(r));
                assert forall|x: RouteKind| #[trigger] v@.contains(x) <==> (old(v)@.contains(x) || x == r) by {}
            }
            return;
        }
        if k > key {
            break;
        }
        i += 1;
    }
    let ghost before = v@;
    v.insert(i, r);
    proof {
        assert forall|a: int, b: int| 0 <= a < b < v@.len() implies order_key(#[trigger] v@[a], by_class) < order_key(#[trigger] v@[b], by_class) by {
            if b < i {
                assert(v@[a] == before[a] && v@[b] == before[b]);
            } else if b == i {
                assert(v@[a] == before[a]);
            } else if a < i {
                assert(v@[a] == before[a] && v@[b] == before[b - 1]);
                if i < before.len() {
                    assert(order_key(before[i as int], by_class) > key);
                    if b - 1 > i {
                        assert(order_key(before[i as int], by_class) < order_key(before[b - 1], by_class));
                    }
                }
            } else if a == i {
                assert(v@[b] == before[b - 1]);
                assert(order_key(before[i as int], by_class) > key);
                if b - 1 > i {
                    assert(order_key(before[i as int], by_class) < order_key(before[b - 1], by_class));
                }
            } else {
                assert(v@[a] == before[a - 1] && v@[b] == before[b - 1]);
            }
        }
        assert forall|x: RouteKind| #[trigger] v@.contains(x) <==> (before.contains(x) || x == r) by {
            if v@.contains(x) {
                let j = choose|j: int| 0 <= j < v@.len() && v@[j] == x;
                if j < i {
                    assert(before[j] == x);
                } else if j > i {
                    assert(before[j - 1] == x);
                }
            }
            if before.contains(x) {
                let j = choose|j: int| 0 <= j < before.len() && before[j] == x;
                if j < i {
                    assert(v@[j] == x);
                } else {
                    assert(v@[j + 1] == x);
                }
            }
            if x == r {
                assert(v@[i as int] == x);
            }
        }
    }
}


/// Add a tunnel route for every network of the list.
fn add_via_tun_all(v: &mut Vec<RouteKind>, nets: &Vec<Net4>)
    requires
        sorted_by(old(v)@, false),
    ensures
        sorted_by(final(v)@, false),
        forall|x: RouteKind|
            #[trigger] final(v)@.contains(x) <==> (old(v)@.contains(x) || exists|i: int|
                0 <= i < nets@.len() && x == RouteKind::ViaTun(#[trigger] nets@[i])),
{
    let mut k: usize = 0;
    while k < nets.len()
        invariant
            k <= nets@.len(),
            sorted_by(v@, false),
            forall|x: RouteKind|
                #[trigger] v@.contains(x) <==> (old(v)@.contains(x) || exists|i: int|
                    0 <= i < k && x == RouteKind::ViaTun(#[trigger] nets@[i])),
        decreases nets@.len() - k,
    {
        let ghost before = v@;
        insert_sorted(v, RouteKind::ViaTun(nets[k]), false);
        k += 1;
        proof {
            assert forall|x: RouteKind|
                #[trigger] v@.contains(x) <==> (old(v)@.contains(x) || exists|i: int|
                    0 <= i < k && x == RouteKind::ViaTun(#[trigger] nets@[i])) by {
                if x == RouteKind::ViaTun(nets@[k - 1]) {
                    assert(v@.contains(x));
                }
                if exists|i: int| 0 <= i < k && x == RouteKind::ViaTun(#[trigger] nets@[i]) {
                    let i = choose|i: int| 0 <= i < k && x == RouteKind::ViaTun(#[trigger] nets@[i]);
                    if i < k - 1 {
                        assert(before.contains(x));
                    }
                }
            }
        }
    }
}

/// Add a route through gateway `g` for every network of the list.
fn add_via_gw_all(v: &mut Vec<RouteKind>, nets: &Vec<Net4>, g: u32)
    requires
        sorted_by(old(v)@, false),
    ensures
        sorted_by(final(v)@, false),
        forall|x: RouteKind|
            #[trigger] final(v)@.contains(x) <==> (old(v)@.contains(x) || exists|i: int|
                0 <= i < nets@.len() && x == (RouteKind::ViaGw { cidr: #[trigger] nets@[i], gw: g })),
{
    let mut k: usize = 0;
    while k < nets.len()
        invariant
            k <= nets@.len(),
            sorted_by(v@, false),
            forall|x: RouteKind|
                #[trigger] v@.contains(x) <==> (old(v)@.contains(x) || exists|i: int|
                    0 <= i < k && x == (RouteKind::ViaGw { cidr: #[trigger] nets@[i], gw: g })),
        decreases nets@.len() - k,
    {
        let ghost before = v@;
        insert_sorted(v, RouteKind::ViaGw { cidr: nets[k], gw: g }, false);
        k += 1;
        proof {
            assert forall|x: RouteKind|
                #[trigger] v@.contains(x) <==> (old(v)@.contains(x) || exists|i: int|
                    0 <= i < k && x == (RouteKind::ViaGw { cidr: #[trigger] nets@[i], gw: g })) by {
                if x == (RouteKind::ViaGw { cidr: nets@[k - 1], gw: g }) {
                    assert(v@.contains(x));
                }
                if exists|i: int| 0 <= i < k && x == (RouteKind::ViaGw { cidr: #[trigger] nets@[i], gw: g }) {
                    let i = choose|i: int| 0 <= i < k && x == (RouteKind::ViaGw { cidr: #[trigger] nets@[i], gw: g });
                    if i < k - 1 {
                        assert(before.contains(x));
                    }
                }
            }
        }
    }
}

/// Add a host route through gateway `g` for every address of the list.
fn add_hosts_via_gw(v: &mut Vec<RouteKind>, hosts: &Vec<u32>, g: u32)
    requires
        sorted_by(old(v)@, false),
    ensures
        sorted_by(final(v)@, false),
        forall|x: RouteKind|
            #[trigger] final(v)@.contains(x) <==> (old(v)@.contains(x) || exists|i: int|
                0 <= i < hosts@.len() && x == (RouteKind::ViaGw {
                    cidr: Net4 { addr: #[trigger] hosts@[i], prefix_len: 32 },
                    gw: g,
                })),
{
    let mut k: usize = 0;
    while k < hosts.len()
        invariant
            k <= hosts@.len(),
            sorted_by(v@, false),
            forall|x: RouteKind|
                #[trigger] v@.contains(x) <==> (old(v)@.contains(x) || exists|i: int|
                    0 <= i < k && x == (RouteKind::ViaGw {
                        cidr: Net4 { addr: #[trigger] hosts@[i], prefix_len: 32 },
                        gw: g,
                    })),
        decreases hosts@.len() - k,
    {
        let ghost before = v@;
        insert_sorted(v, RouteKind::ViaGw { cidr: Net4::host(hosts[k]), gw: g }, false);
        k += 1;
        proof {
            assert forall|x: RouteKind|
                #[trigger] v@.contains(x) <==> (old(v)@.contains(x) || exists|i: int|
                    0 <= i < k && x == (RouteKind::ViaGw {
                        cidr: Net4 { addr: #[trigger] hosts@[i], prefix_len: 32 },
                        gw: g,
                    })) by {
                if x == (RouteKind::ViaGw { cidr: Net4 { addr: hosts@[k - 1], prefix_len: 32 }, gw: g }) {
                    assert(v@.contains(x));
                }
                if exists|i: int|
                    0 <= i < k && x == (RouteKind::ViaGw {
                        cidr: Net4 { addr: #[trigger] hosts@[i], prefix_len: 32 },
                        gw: g,
                    }) {
                    let i = choose|i: int|
                        0 <= i < k && x == (RouteKind::ViaGw {
                            cidr: Net4 { addr: #[trigger] hosts@[i], prefix_len: 32 },
                            gw: g,
                        });
                    if i < k - 1 {
                        assert(before.contains(x));
                    }
                }
            }
        }
    }
}

impl DesiredRoutes {
    /// The route set this desired state asks for, in route order.
    pub fn to_set(&self, gateway: Option<u32>) -> (r: Vec<RouteKind>)
        ensures
            sorted_by(r@, false),
            forall|x: RouteKind| #[trigger] r@.contains(x) <==> in_route_set(*self, gateway, x),
            forall|i: int|
                0 <= i < self.remote_subnets@.len() ==> r@.contains(
                    RouteKind::ViaTun(#[trigger] self.remote_subnets@[i]),
                ),
            self.profile.split_tunnel_mode == SplitTunnelMode::Include ==> forall|i: int|
                0 <= i < self.profile.split_tunnel_cidrs@.len() ==> r@.contains(
                    RouteKind::ViaTun(#[trigger] self.profile.split_tunnel_cidrs@[i]),
                ),
            self.profile.split_tunnel_mode == SplitTunnelMode::Exclude && (self.has_exit
                || self.profile.exit_node_endpoint_id is Some) ==> r@.contains(
                RouteKind::ViaTun(Net4 { addr: 0, prefix_len: 0 }),
            ),
            self.profile.split_tunnel_mode == SplitTunnelMode::Exclude && (self.has_exit
                || self.profile.exit_node_endpoint_id is Some) && gateway is Some ==> forall|i: int|
                0 <= i < self.profile.split_tunnel_cidrs@.len() ==> r@.contains(
                    RouteKind::ViaGw { cidr: #[trigger] self.profile.split_tunnel_cidrs@[i], gw: gateway->0 },
                ),
            self.profile.split_tunnel_mode == SplitTunnelMode::Exclude && (self.has_exit
                || self.profile.exit_node_endpoint_id is Some) && gateway is Some ==> forall|i: int|
                0 <= i < self.underlay_hosts@.len() ==> r@.contains(
                    RouteKind::ViaGw {
                        cidr: Net4 { addr: #[trigger] self.underlay_hosts@[i], prefix_len: 32 },
                        gw: gateway->0,
                    },
                ),
            self.profile.split_tunnel_mode == SplitTunnelMode::Exclude && (self.has_exit
                || self.profile.exit_node_endpoint_id is Some) && gateway is Some
                && self.profile.allow_local_lan ==> forall|i: int|
                0 <= i < 3 ==> r@.contains(
                    RouteKind::ViaGw { cidr: #[trigger] spec_rfc1918()[i], gw: gateway->0 },
                ),
            forall|j: int|
                0 <= j < r@.len() ==> match #[trigger] r@[j] {
                    RouteKind::ViaGw { cidr, gw } => route_via_gw_allowed(*self, gateway, cidr, gw),
                    RouteKind::ViaTun(c) => route_via_tun_allowed(*self, c),
                },
    {
        let mut set: Vec<RouteKind> = Vec::new();
        add_via_tun_all(&mut set, &self.remote_subnets);
        let ghost s1 = set@;
        match self.profile.split_tunnel_mode {
            SplitTunnelMode::Include => {
                add_via_tun_all(&mut set, &self.profile.split_tunnel_cidrs);
            },
            SplitTunnelMode::Exclude => {
                if self.has_exit || self.profile.exit_node_endpoint_id.is_some() {
                    insert_sorted(&mut set, RouteKind::ViaTun(Net4 { addr: 0, prefix_len: 0 }), false);
                    if let Some(gw) = gateway {
                        add_via_gw_all(&mut set, &self.profile.split_tunnel_cidrs, gw);
                        if self.profile.allow_local_lan {
                            let lan = rfc1918_nets();
                            add_via_gw_all(&mut set, &lan, gw);
                        }
                        add_hosts_via_gw(&mut set, &self.underlay_hosts, gw);
                    }
                }
            },
        }
        proof {
            law_route_set_follows_profile(*self, gateway);
            assert forall|j: int| 0 <= j < set@.len() implies match #[trigger] set@[j] {
                RouteKind::ViaGw { cidr, gw } => route_via_gw_allowed(*self, gateway, cidr, gw),
                    RouteKind::ViaTun(c) => route_via_tun_allowed(*self, c),
            } by {
                assert(set@.contains(set@[j]));
            }
        }
        set
    }
}


fn contains_route(v: &Vec<RouteKind>, r: RouteKind) -> (b: bool)
    ensures
        b == v@.contains(r),
{
    let mut i: usize = 0;
    while i < v.len()
        invariant
            i <= v@.len(),
            forall|j: int| 0 <= j < i ==> v@[j] != r,
        decreases v@.len() - i,
    {
        if v[i] == r {
            assert(v@[i as int] == r);
            return true;
        }
        i += 1;
    }
    false
}

/// The elements of `a` that are not in `b`, ordered by `by_class`.
fn difference(a: &Vec<RouteKind>, b: &Vec<RouteKind>, by_class: bool) -> (r: Vec<RouteKind>)
    ensures
        sorted_by(r@, by_class),
        forall|x: RouteKind| #[trigger] r@.contains(x) <==> (a@.contains(x) && !b@.contains(x)),
{
    let mut out: Vec<RouteKind> = Vec::new();
    let mut i: usize = 0;
    while i < a.len()
        invariant
            i <= a@.len(),
            sorted_by(out@, by_class),
            forall|x: RouteKind|
                #[trigger] out@.contains(x) <==> ((exists|j: int| 0 <= j < i && #[trigger] a@[j] == x)
                    && !b@.contains(x)),
        decreases a@.len() - i,
    {
        let x = a[i];
        if !contains_route(b, x) {
            insert_sorted(&mut out, x, by_class);
        }
        i += 1;
        proof {
            assert forall|y: RouteKind|
                #[trigger] out@.contains(y) <==> ((exists|j: int| 0 <= j < i && #[trigger] a@[j] == y)
                    && !b@.contains(y)) by {
                if y == x {
                    assert(a@[i - 1] == y);
                }
            }
        }
    }
    proof {
        assert forall|y: RouteKind| #[trigger] a@.contains(y) <==> (exists|j: int| 0 <= j < a@.len() && #[trigger] a@[j] == y) by {}
    }
    out
}

/// The tunnel routes of the remote subnets only.
fn remote_only(d: &DesiredRoutes) -> (r: Vec<RouteKind>)
    ensures
        sorted_by(r@, false),
        forall|x: RouteKind|
            #[trigger] r@.contains(x) <==> exists|i: int|
                0 <= i < d.remote_subnets@.len() && x == RouteKind::ViaTun(#[trigger] d.remote_subnets@[i]),
{
    let mut set: Vec<RouteKind> = Vec::new();
    add_via_tun_all(&mut set, &d.remote_subnets);
    set
}

/// Routes to remove and to add for one reconciliation, in the order to apply
/// them.
pub struct RoutePlan {
    pub to_del: Vec<RouteKind>,
    pub to_add: Vec<RouteKind>,
}

/// Diff-based route manager: remembers what Tunnet installed.
#[derive(Debug, Clone, Default)]
pub struct RouteReconciler {
    pub routes: Vec<RouteKind>,
    pub gateway: Option<u32>,
    pub ifname: String,
}

impl RouteReconciler {
    /// Installed routes are kept in route order, without duplicates.
    pub open spec fn wf(&self) -> bool {
        sorted_by(self.routes@, false)
    }

    pub fn new() -> (r: Self)
        ensures
            r.wf(),
            r.routes@.len() == 0,
            r.gateway is None,
    {
        RouteReconciler { routes: Vec::new(), gateway: None, ifname: String::new() }
    }

    /// Plan the change from the installed routes to the desired ones. The
    /// underlay gateway, once known, is remembered; `discovered_gateway` is
    /// used only while none is known.
    pub fn reconcile(&mut self, desired: &DesiredRoutes, discovered_gateway: Option<u32>) -> (plan: RoutePlan)
        requires
            old(self).wf(),
        ensures
            final(self).wf(),
            final(self).gateway == if old(self).gateway is None {
                discovered_gateway
            } else {
                old(self).gateway
            },
            forall|x: RouteKind|
                #[trigger] final(self).routes@.contains(x) <==> in_wanted(*desired, final(self).gateway, x),
            forall|x: RouteKind|
                #[trigger] plan.to_del@.contains(x) <==> (old(self).routes@.contains(x) && !in_wanted(
                    *desired,
                    final(self).gateway,
                    x,
                )),
            forall|x: RouteKind|
                #[trigger] plan.to_add@.contains(x) <==> (in_wanted(*desired, final(self).gateway, x)
                    && !old(self).routes@.contains(x)),
            sorted_by(plan.to_del@, false),
            sorted_by(plan.to_add@, true),
            final(self).ifname@ == desired.ifname@,
            forall|i: int|
                0 <= i < desired.remote_subnets@.len() ==> final(self).routes@.contains(
                    RouteKind::ViaTun(#[trigger] desired.remote_subnets@[i]),
                ) && (!old(self).routes@.contains(RouteKind::ViaTun(desired.remote_subnets@[i]))
                    ==> plan.to_add@.contains(RouteKind::ViaTun(desired.remote_subnets@[i]))),
            desired.profile.split_tunnel_mode == SplitTunnelMode::Include ==> forall|i: int|
                0 <= i < desired.profile.split_tunnel_cidrs@.len() ==> final(self).routes@.contains(
                    RouteKind::ViaTun(#[trigger] desired.profile.split_tunnel_cidrs@[i]),
                ) && (!old(self).routes@.contains(
                    RouteKind::ViaTun(desired.profile.split_tunnel_cidrs@[i]),
                ) ==> plan.to_add@.contains(
                    RouteKind::ViaTun(desired.profile.split_tunnel_cidrs@[i]),
                )),
    {
        if self.gateway.is_none() {
            self.gateway = discovered_gateway;
        }
        let gateway = self.gateway;
        let exit = desired.has_exit || desired.profile.exit_node_endpoint_id.is_some();
        let exclude = match desired.profile.split_tunnel_mode {
            SplitTunnelMode::Exclude => true,
            SplitTunnelMode::Include => false,
        };
        let want = if gateway.is_none() && exit && exclude {
            remote_only(desired)
        } else {
            desired.to_set(gateway)
        };
        let to_add = difference(&want, &self.routes, true);
        let to_del = difference(&self.routes, &want, false);
        self.routes = want;
        self.ifname = desired.ifname.clone();
        proof {
            law_route_set_follows_profile(*desired, gateway);
            assert forall|i: int| 0 <= i < desired.remote_subnets@.len() implies in_wanted(
                *desired,
                gateway,
                RouteKind::ViaTun(#[trigger] desired.remote_subnets@[i]),
            ) by {}
        }
        RoutePlan { to_del, to_add }
    }

    /// Forget every installed route and the gateway; returns the routes to
    /// remove (in route order) and the interface they were installed on.
    pub fn clear(&mut self) -> (r: (Vec<RouteKind>, String))
        requires
            old(self).wf(),
        ensures
            final(self).wf(),
            r.0@ == old(self).routes@,
            r.1@ == old(self).ifname@,
            final(self).routes@.len() == 0,
            final(self).gateway is None,
    {
        let mut routes = Vec::new();
        std::mem::swap(&mut routes, &mut self.routes);
        let ifname = self.ifname.clone();
        self.gateway = None;
        (routes, ifname)
    }
}

/// Reconciling again toward the same desired state with the same gateway
/// plans nothing: reconciliation is idempotent.
pub proof fn law_reconcile_is_idempotent(installed: Seq<RouteKind>, d: DesiredRoutes, g: Option<u32>)
    requires
        forall|x: RouteKind| #[trigger] installed.contains(x) <==> in_wanted(d, g, x),
    ensures
        forall|x: RouteKind| !(installed.contains(x) && !in_wanted(d, g, x)),
        forall|x: RouteKind| !(in_wanted(d, g, x) && !installed.contains(x)),
{
}

/// In an addition plan, host exclusions come before other exclusions, those
/// before tunnel routes, and the default route through the tunnel comes last.
pub proof fn law_add_order_is_safe(to_add: Seq<RouteKind>, i: int, j: int)
    requires
        sorted_by(to_add, true),
        0 <= i < j < to_add.len(),
    ensures
        add_class(to_add[i]) <= add_class(to_add[j]),
{
    lemma_kind_key_injective(to_add[i], to_add[i]);
    lemma_kind_key_injective(to_add[j], to_add[j]);
    assert(add_key(to_add[i]) < add_key(to_add[j]));
}

/// A route through a gateway may only be an Exclude-mode exception of an
/// exit-node profile, through the known underlay gateway, for a
/// split-tunnel CIDR, an underlay host, or (when the local LAN is allowed)
/// a private range.
pub open spec fn route_via_gw_allowed(d: DesiredRoutes, gateway: Option<u32>, cidr: Net4, gw: u32) -> bool {
    &&& d.profile.split_tunnel_mode == SplitTunnelMode::Exclude
    &&& (d.has_exit || d.profile.exit_node_endpoint_id is Some)
    &&& gateway == Some(gw)
    &&& (d.profile.split_tunnel_cidrs@.contains(cidr) || (cidr.prefix_len == 32
        && d.underlay_hosts@.contains(cidr.addr)) || (d.profile.allow_local_lan
        && spec_rfc1918().contains(cidr)))
}

/// A tunnel route may only be a remote subnet, an Include-mode CIDR, or
/// the default route of an Exclude-mode exit-node profile.
pub open spec fn route_via_tun_allowed(d: DesiredRoutes, c: Net4) -> bool {
    ||| d.remote_subnets@.contains(c)
    ||| (d.profile.split_tunnel_mode == SplitTunnelMode::Include && d.profile.split_tunnel_cidrs@.contains(c))
    ||| (c == (Net4 { addr: 0, prefix_len: 0 }) && d.profile.split_tunnel_mode == SplitTunnelMode::Exclude
        && (d.has_exit || d.profile.exit_node_endpoint_id is Some))
}

/// What a desired state routes, in terms of its fields: every remote subnet
/// goes through the tunnel; in Include mode every split-tunnel CIDR goes
/// through the tunnel; in Exclude mode with an exit node the default route
/// goes through the tunnel and, once the underlay gateway is known, every
/// split-tunnel CIDR and every underlay host goes through that gateway.
/// Nothing else is routed: a route through a gateway is always through the
/// known underlay gateway in Exclude mode, and a tunnel route is the
/// default route, a remote subnet or an Include-mode CIDR.
pub proof fn law_route_set_follows_profile(d: DesiredRoutes, gateway: Option<u32>)
    ensures
        forall|i: int|
            0 <= i < d.remote_subnets@.len() ==> in_route_set(
                d,
                gateway,
                RouteKind::ViaTun(#[trigger] d.remote_subnets@[i]),
            ),
        d.profile.split_tunnel_mode == SplitTunnelMode::Include ==> forall|i: int|
            0 <= i < d.profile.split_tunnel_cidrs@.len() ==> in_route_set(
                d,
                gateway,
                RouteKind::ViaTun(#[trigger] d.profile.split_tunnel_cidrs@[i]),
            ),
        d.profile.split_tunnel_mode == SplitTunnelMode::Exclude && (d.has_exit
            || d.profile.exit_node_endpoint_id is Some) ==> in_route_set(
            d,
            gateway,
            RouteKind::ViaTun(Net4 { addr: 0, prefix_len: 0 }),
        ),
        d.profile.split_tunnel_mode == SplitTunnelMode::Exclude && (d.has_exit
            || d.profile.exit_node_endpoint_id is Some) && gateway is Some ==> forall|i: int|
            0 <= i < d.profile.split_tunnel_cidrs@.len() ==> in_route_set(
                d,
                gateway,
                RouteKind::ViaGw { cidr: #[trigger] d.profile.split_tunnel_cidrs@[i], gw: gateway->0 },
            ),
        d.profile.split_tunnel_mode == SplitTunnelMode::Exclude && (d.has_exit
            || d.profile.exit_node_endpoint_id is Some) && gateway is Some ==> forall|i: int|
            0 <= i < d.underlay_hosts@.len() ==> in_route_set(
                d,
                gateway,
                RouteKind::ViaGw {
                    cidr: Net4 { addr: #[trigger] d.underlay_hosts@[i], prefix_len: 32 },
                    gw: gateway->0,
                },
            ),
        d.profile.split_tunnel_mode == SplitTunnelMode::Exclude && (d.has_exit
            || d.profile.exit_node_endpoint_id is Some) && gateway is Some && d.profile.allow_local_lan
            ==> forall|i: int|
            0 <= i < 3 ==> in_route_set(
                d,
                gateway,
                RouteKind::ViaGw { cidr: #[trigger] spec_rfc1918()[i], gw: gateway->0 },
            ),
        forall|r: RouteKind|
            #[trigger] in_route_set(d, gateway, r) ==> match r {
                RouteKind::ViaGw { cidr, gw } => route_via_gw_allowed(d, gateway, cidr, gw),
                RouteKind::ViaTun(c) => route_via_tun_allowed(d, c),
            },
{
    assert forall|r: RouteKind| #[trigger] in_route_set(d, gateway, r) implies match r {
        RouteKind::ViaGw { cidr, gw } => route_via_gw_allowed(d, gateway, cidr, gw),
        RouteKind::ViaTun(c) => route_via_tun_allowed(d, c),
    } by {
        if exists|i: int| 0 <= i < d.remote_subnets@.len() && r == RouteKind::ViaTun(#[trigger] d.remote_subnets@[i]) {
            let i = choose|i: int| 0 <= i < d.remote_subnets@.len() && r == RouteKind::ViaTun(#[trigger] d.remote_subnets@[i]);
            assert(d.remote_subnets@.contains(d.remote_subnets@[i]));
        } else if d.profile.split_tunnel_mode == SplitTunnelMode::Include {
            let i = choose|i: int| 0 <= i < d.profile.split_tunnel_cidrs@.len() && r == RouteKind::ViaTun(
                #[trigger] d.profile.split_tunnel_cidrs@[i],
            );
            assert(d.profile.split_tunnel_cidrs@.contains(d.profile.split_tunnel_cidrs@[i]));
        }
    }
}

} // verus!
