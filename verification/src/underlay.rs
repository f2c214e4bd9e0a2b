//! The underlay (physical uplink) as discovered from the host.

use crate::flow::IpAddress;
use crate::labels::{find_char, first_index, lemma_first_index_bounds, trim, trim_range};
use crate::routes::Net4;
use vstd::prelude::*;

verus! {

/// An IPv6 prefix.
#[derive(Debug, Clone, Copy, PartialEq, Eq, Structural)]
pub struct Net6 {
    pub addr: u128,
    pub prefix_len: u8,
}

/// The default interface of the host and what it is configured with.
#[derive(Debug, Clone)]
pub struct UnderlayInfo {
    pub interface_index: u32,
    pub interface_name: String,
    pub gateway: Option<IpAddress>,
    pub local_ipv4: Vec<Net4>,
    pub local_ipv6: Vec<Net6>,
    pub mtu: Option<u32>,
    pub dns_servers: Vec<IpAddress>,
}

/// The gateway to record: the interface's first IPv4 gateway, else its first
/// IPv6 one, else the host default gateway's first IPv4, else its first IPv6.
pub open spec fn spec_choose_gateway(
    iface_v4: Seq<u32>,
    iface_v6: Seq<u128>,
    default_v4: Seq<u32>,
    default_v6: Seq<u128>,
) -> Option<IpAddress> {
    if iface_v4.len() > 0 {
        Some(IpAddress::V4(iface_v4[0]))
    } else if iface_v6.len() > 0 {
        Some(IpAddress::V6(iface_v6[0]))
    } else if default_v4.len() > 0 {
        Some(IpAddress::V4(default_v4[0]))
    } else if default_v6.len() > 0 {
        Some(IpAddress::V6(default_v6[0]))
    } else {
        None
    }
}

/// Pick the underlay gateway from the interface's gateway addresses and,
/// failing those, the host default gateway's.
pub fn choose_gateway(
    iface_v4: &[u32],
    iface_v6: &[u128],
    default_v4: &[u32],
    default_v6: &[u128],
) -> (g: Option<IpAddress>)
    ensures
        g == spec_choose_gateway(iface_v4@, iface_v6@, default_v4@, default_v6@),
        iface_v4@.len() > 0 ==> g == Some(IpAddress::V4(iface_v4@[0])),
        iface_v4@.len() == 0 && iface_v6@.len() > 0 ==> g == Some(IpAddress::V6(iface_v6@[0])),
        iface_v4@.len() == 0 && iface_v6@.len() == 0 && default_v4@.len() > 0 ==> g == Some(
            IpAddress::V4(default_v4@[0]),
        ),
        iface_v4@.len() == 0 && iface_v6@.len() == 0 && default_v4@.len() == 0 && default_v6@.len()
            > 0 ==> g == Some(IpAddress::V6(default_v6@[0])),
        g is None <==> (iface_v4@.len() == 0 && iface_v6@.len() == 0 && default_v4@.len() == 0
            && default_v6@.len() == 0),
{
    proof {
        law_gateway_prefers_interface_then_ipv4(iface_v4@, iface_v6@, default_v4@, default_v6@);
    }
    if iface_v4.len() > 0 {
        Some(IpAddress::V4(iface_v4[0]))
    } else if iface_v6.len() > 0 {
        Some(IpAddress::V6(iface_v6[0]))
    } else if default_v4.len() > 0 {
        Some(IpAddress::V4(default_v4[0]))
    } else if default_v6.len() > 0 {
        Some(IpAddress::V6(default_v6[0]))
    } else {
        None
    }
}

pub open spec fn spec_gateway_v4(gateway: Option<IpAddress>) -> Option<u32> {
    match gateway {
        Some(IpAddress::V4(ip)) => Some(ip),
        _ => None,
    }
}

impl UnderlayInfo {
    /// The gateway, when it is an IPv4 address.
    pub fn gateway_v4(&self) -> (g: Option<u32>)
        ensures
            g == spec_gateway_v4(self.gateway),
    {
        match self.gateway {
            Some(IpAddress::V4(ip)) => Some(ip),
            _ => None,
        }
    }
}

/// IPv4 default gateway of a discovered underlay, if any.
pub fn default_gateway_v4(info: Option<UnderlayInfo>) -> (g: Option<u32>)
    ensures
        g == (match info {
            Some(u) => spec_gateway_v4(u.gateway),
            None => None,
        }),
{
    match info {
        Some(u) => u.gateway_v4(),
        None => None,
    }
}

/// Underlay interface name used for NAT masquerading, if an underlay was
/// discovered.
pub fn default_uplink_name(info: Option<UnderlayInfo>) -> (name: Option<String>)
    ensures
        match info {
            Some(u) => name matches Some(n) && n@ == u.interface_name@,
            None => name is None,
        },
{
    match info {
        Some(u) => Some(u.interface_name),
        None => None,
    }
}

/// `s` with every leading repetition of `p` removed.
pub open spec fn strip_prefixes(s: Seq<char>, p: Seq<char>) -> Seq<char>
    decreases s.len(),
{
    if p.len() > 0 && s.len() >= p.len() && s.subrange(0, p.len() as int) == p {
        strip_prefixes(s.skip(p.len() as int), p)
    } else {
        s
    }
}

/// `s` with every leading `c` removed.
pub open spec fn strip_leading(s: Seq<char>, c: char) -> Seq<char>
    decreases s.len(),
{
    if s.len() > 0 && s[0] == c {
        strip_leading(s.drop_first(), c)
    } else {
        s
    }
}

/// `s` with every trailing `c` removed.
pub open spec fn strip_trailing(s: Seq<char>, c: char) -> Seq<char>
    decreases s.len(),
{
    if s.len() > 0 && s.last() == c {
        strip_trailing(s.drop_last(), c)
    } else {
        s
    }
}

pub open spec fn is_url_sep(c: char) -> bool {
    c == '/' || c == ':' || c == '?'
}

/// The text before the first `/`, `:` or `?`.
pub open spec fn before_sep(s: Seq<char>) -> Seq<char>
    decreases s.len(),
{
    if s.len() == 0 || is_url_sep(s[0]) {
        Seq::empty()
    } else {
        seq![s[0]] + before_sep(s.drop_first())
    }
}

/// The host of a control-plane URL: trimmed, scheme prefixes removed, up to
/// the first path, port or query separator, without IPv6 brackets.
pub open spec fn url_host(url: Seq<char>) -> Seq<char> {
    let rest = strip_prefixes(strip_prefixes(trim(url), "https://"@), "http://"@);
    strip_trailing(strip_leading(before_sep(rest), '['), ']')
}

/// The fields of `s` separated by `.`.
pub open spec fn split_dots(s: Seq<char>) -> Seq<Seq<char>>
    decreases s.len(),
{
    let i = first_index(s, '.');
    if i >= s.len() {
        seq![s]
    } else {
        proof {
            lemma_first_index_bounds(s, '.');
        }
        seq![s.subrange(0, i)] + split_dots(s.subrange(i + 1, s.len() as int))
    }
}

pub open spec fn digit_value(c: char) -> int {
    (c as u32) - 48
}

pub open spec fn is_ascii_digit(c: char) -> bool {
    '0' <= c <= '9'
}

/// Decimal value of a string of digits.
pub open spec fn decimal_value(p: Seq<char>) -> int
    decreases p.len(),
{
    if p.len() == 0 {
        0
    } else {
        decimal_value(p.drop_last()) * 10 + digit_value(p.last())
    }
}

/// A dot-decimal octet: one to three digits, no leading zero, at most 255.
pub open spec fn octet_of(p: Seq<char>) -> Option<int> {
    if 1 <= p.len() <= 3 && (forall|k: int| 0 <= k < p.len() ==> is_ascii_digit(#[trigger] p[k]))
        && !(p.len() > 1 && p[0] == '0') && decimal_value(p) <= 255 {
        Some(decimal_value(p))
    } else {
        None
    }
}

/// The IPv4 address written in dot-decimal notation (four decimal octets,
/// no leading zeros), as the integer of its octets.
pub open spec fn ipv4_addr_of(s: Seq<char>) -> Option<u32> {
    let ps = split_dots(s);
    if ps.len() == 4 && octet_of(ps[0]) is Some && octet_of(ps[1]) is Some && octet_of(ps[2]) is Some
        && octet_of(ps[3]) is Some {
        Some(
            (octet_of(ps[0])->0 * 16777216 + octet_of(ps[1])->0 * 65536 + octet_of(ps[2])->0 * 256
                + octet_of(ps[3])->0) as u32,
        )
    } else {
        None
    }
}

/// The octet written in `s[from..to]`.
fn parse_octet(s: &str, from: usize, to: usize) -> (r: Option<u32>)
    requires
        from <= to <= s@.len(),
    ensures
        r is Some == octet_of(s@.subrange(from as int, to as int)) is Some,
        r matches Some(v) ==> octet_of(s@.subrange(from as int, to as int)) == Some(v as int),
{
    let ghost p = s@.subrange(from as int, to as int);
    if to - from < 1 || to - from > 3 {
        return None;
    }
    let mut v: u32 = 0;
    let mut i = from;
    while i < to
        invariant
            from <= i <= to <= s@.len(),
            to - from <= 3,
            p == s@.subrange(from as int, to as int),
            forall|k: int| from <= k < i ==> is_ascii_digit(#[trigger] s@[k]),
            v == decimal_value(s@.subrange(from as int, i as int)),
            v < 1000,
            i - from <= 3,
            v < (if i - from == 0 { 1int } else if i - from == 1 { 10int } else if i - from == 2 { 100int } else { 1000int }),
        decreases to - i,
    {
        let c = s.get_char(i);
        if !('0' <= c && c <= '9') {
            proof {
                assert(p[i - from] == c);
            }
            return None;
        }
        proof {
            assert(s@.subrange(from as int, i + 1).drop_last() =~= s@.subrange(from as int, i as int));
        }
        v = v * 10 + char_digit(c);
        i = i + 1;
    }
    proof {
        assert(s@.subrange(from as int, to as int) =~= p);
        assert forall|k: int| 0 <= k < p.len() implies is_ascii_digit(#[trigger] p[k]) by {
            assert(p[k] == s@[from + k]);
        }
    }
    if to - from > 1 && s.get_char(from) == '0' {
        return None;
    }
    if v > 255 {
        return None;
    }
    Some(v)
}

fn char_digit(c: char) -> (d: u32)
    requires
        '0' <= c <= '9',
    ensures
        d == digit_value(c),
        d < 10,
{
    (c as u32) - 48
}

/// Parse a dot-decimal IPv4 address.
pub fn parse_ipv4_addr(s: &str) -> (r: Option<u32>)
    ensures
        r == ipv4_addr_of(s@),
{
    let n = s.unicode_len();
    let mut octets: Vec<u32> = Vec::new();
    let ghost mut consumed: Seq<Seq<char>> = Seq::empty();
    let mut pos: usize = 0;
    proof {
        assert(s@.subrange(0, n as int) =~= s@);
        assert(split_dots(s@) =~= consumed + split_dots(s@.subrange(0, n as int)));
    }
    loop
        invariant_except_break
            split_dots(s@) == consumed + split_dots(s@.subrange(pos as int, n as int)),
        invariant
            pos <= n,
            n == s@.len(),
            octets@.len() <= 4,
            consumed.len() == octets@.len(),
            forall|k: int| 0 <= k < octets@.len() ==> octet_of(#[trigger] consumed[k]) == Some(octets@[k] as int),
            forall|k: int| 0 <= k < octets@.len() ==> #[trigger] octets@[k] <= 255,
        ensures
            n == s@.len(),
            octets@.len() <= 4,
            consumed.len() == octets@.len(),
            split_dots(s@) == consumed,
            forall|k: int| 0 <= k < octets@.len() ==> octet_of(#[trigger] consumed[k]) == Some(octets@[k] as int),
            forall|k: int| 0 <= k < octets@.len() ==> #[trigger] octets@[k] <= 255,
        decreases n - pos,
    {
        let ghost rest = s@.subrange(pos as int, n as int);
        let i = find_char(s, pos, n, '.');
        let ghost piece = s@.subrange(pos as int, i as int);
        proof {
            assert(rest.subrange(0, i - pos) =~= piece);
            if i < n {
                assert(rest.subrange(i - pos + 1, rest.len() as int) =~= s@.subrange(i + 1, n as int));
                assert(split_dots(rest) == seq![piece] + split_dots(s@.subrange(i + 1, n as int)));
            } else {
                assert(split_dots(rest) == seq![piece]);
            }
        }
        let o = parse_octet(s, pos, i);
        match o {
            None => {
                proof {
                    let ps = split_dots(s@);
                    assert(ps[consumed.len() as int] == piece);
                }
                return None;
            },
            Some(v) => {
                if octets.len() == 4 {
                    proof {
                        assert(split_dots(s@).len() >= 5);
                    }
                    return None;
                }
                octets.push(v);
                proof {
                    let old_consumed = consumed;
                    consumed = consumed.push(piece);
                    assert forall|k: int| 0 <= k < octets@.len() implies octet_of(#[trigger] consumed[k]) == Some(octets@[k] as int) by {
                        if k < old_consumed.len() {
                            assert(consumed[k] == old_consumed[k]);
                        }
                    }
                }
            },
        }
        if i >= n {
            proof {
                assert(split_dots(s@) =~= consumed);
            }
            break;
        }
        proof {
            assert(split_dots(s@) =~= consumed + split_dots(s@.subrange(i + 1, n as int)));
        }
        pos = i + 1;
    }
    if octets.len() != 4 {
        return None;
    }
    Some(octets[0] * 16777216 + octets[1] * 65536 + octets[2] * 256 + octets[3])
}

/// Whether `s[from..to]` starts with `p`.
pub(crate) fn starts_with_at(s: &str, from: usize, to: usize, p: &str) -> (b: bool)
    requires
        from <= to <= s@.len(),
    ensures
        b == (to - from >= p@.len() && s@.subrange(from as int, to as int).subrange(0, p@.len() as int)
            == p@),
{
    let n = p.unicode_len();
    if to - from < n {
        return false;
    }
    let mut i: usize = 0;
    while i < n
        invariant
            i <= n,
            n == p@.len(),
            from + n <= to <= s@.len(),
            forall|j: int| 0 <= j < i ==> s@[from + j] == p@[j],
        decreases n - i,
    {
        if s.get_char(from + i) != p.get_char(i) {
            assert(s@.subrange(from as int, to as int).subrange(0, n as int)[i as int] != p@[i as int]);
            return false;
        }
        i = i + 1;
    }
    assert(s@.subrange(from as int, to as int).subrange(0, n as int) =~= p@);
    true
}

/// Move `from` past every repetition of `p` at the start of `s[from..to]`.
pub(crate) fn skip_prefixes(s: &str, from: usize, to: usize, p: &str) -> (r: usize)
    requires
        from <= to <= s@.len(),
        p@.len() > 0,
    ensures
        from <= r <= to,
        s@.subrange(r as int, to as int) == strip_prefixes(s@.subrange(from as int, to as int), p@),
    decreases to - from,
{
    let n = p.unicode_len();
    if starts_with_at(s, from, to, p) {
        proof {
            assert(s@.subrange(from as int, to as int).skip(n as int) =~= s@.subrange(from + n, to as int));
        }
        skip_prefixes(s, from + n, to, p)
    } else {
        from
    }
}

/// Resolve IPv4 underlay pins from a control-plane URL: its host, when it is
/// an IPv4 literal that is neither loopback nor unspecified.
pub fn underlay_hosts_from_url(control_url: &str) -> (hosts: Vec<u32>)
    ensures
        match ipv4_addr_of(url_host(control_url@)) {
            Some(ip) => if ip / 16777216 != 127 && ip != 0 {
                hosts@ == seq![ip]
            } else {
                hosts@.len() == 0
            },
            None => hosts@.len() == 0,
        },
{
    let n = control_url.unicode_len();
    let (a, b) = trim_range(control_url, 0, n);
    proof {
        assert(control_url@.subrange(0, n as int) =~= control_url@);
    }
    proof {
        reveal_strlit("https://");
        reveal_strlit("http://");
    }
    let a = skip_prefixes(control_url, a, b, "https://");
    let a = skip_prefixes(control_url, a, b, "http://");
    let ghost rest = control_url@.subrange(a as int, b as int);
    let mut e = a;
    while e < b
        invariant_except_break
            a <= e <= b <= control_url@.len(),
            rest == control_url@.subrange(a as int, b as int),
            before_sep(rest) == control_url@.subrange(a as int, e as int) + before_sep(
                control_url@.subrange(e as int, b as int),
            ),
        ensures
            a <= e <= b <= control_url@.len(),
            before_sep(rest) == control_url@.subrange(a as int, e as int),
        decreases b - e,
    {
        let c = control_url.get_char(e);
        if c == '/' || c == ':' || c == '?' {
            proof {
                assert(control_url@.subrange(e as int, b as int)[0] == c);
                assert(control_url@.subrange(a as int, e as int) + Seq::<char>::empty() =~= control_url@.subrange(a as int, e as int));
            }
            break;
        }
        proof {
            let t = control_url@.subrange(e as int, b as int);
            assert(t.drop_first() =~= control_url@.subrange(e + 1, b as int));
            assert(control_url@.subrange(a as int, e as int) + seq![c] =~= control_url@.subrange(a as int, e + 1));
            assert(control_url@.subrange(a as int, e as int) + (seq![c] + before_sep(t.drop_first())) =~= control_url@.subrange(a as int, e + 1) + before_sep(t.drop_first()));
        }
        e = e + 1;
    }
    proof {
        if e == b {
            assert(control_url@.subrange(e as int, b as int) =~= Seq::<char>::empty());
            assert(control_url@.subrange(a as int, e as int) + Seq::<char>::empty() =~= control_url@.subrange(a as int, e as int));
        }
    }
    let mut h0 = a;
    while h0 < e
        invariant_except_break
            a <= h0 <= e <= control_url@.len(),
            strip_leading(control_url@.subrange(a as int, e as int), '[') == strip_leading(
                control_url@.subrange(h0 as int, e as int),
                '[',
            ),
        ensures
            a <= h0 <= e,
            strip_leading(control_url@.subrange(a as int, e as int), '[') == control_url@.subrange(
                h0 as int,
                e as int,
            ),
        decreases e - h0,
    {
        if control_url.get_char(h0) != '[' {
            break;
        }
        proof {
            assert(control_url@.subrange(h0 as int, e as int).drop_first() =~= control_url@.subrange(h0 + 1, e as int));
        }
        h0 = h0 + 1;
    }
    let mut h1 = e;
    while h1 > h0
        invariant_except_break
            h0 <= h1 <= e <= control_url@.len(),
            strip_trailing(control_url@.subrange(h0 as int, e as int), ']') == strip_trailing(
                control_url@.subrange(h0 as int, h1 as int),
                ']',
            ),
        ensures
            h0 <= h1 <= e,
            strip_trailing(control_url@.subrange(h0 as int, e as int), ']') == control_url@.subrange(
                h0 as int,
                h1 as int,
            ),
        decreases h1 - h0,
    {
        if control_url.get_char(h1 - 1) != ']' {
            break;
        }
        proof {
            assert(control_url@.subrange(h0 as int, h1 as int).drop_last() =~= control_url@.subrange(h0 as int, h1 - 1));
        }
        h1 = h1 - 1;
    }
    let host = control_url.substring_char(h0, h1);
    let mut hosts: Vec<u32> = Vec::new();
    match parse_ipv4_addr(host) {
        Some(ip) => {
            if ip / 16777216 != 127 && ip != 0 {
                hosts.push(ip);
            }
        },
        None => {},
    }
    hosts
}

/// `hosts` with the IPv4 servers of `servers` appended in order, each
/// skipped when it is loopback (127/8) or already present.
pub open spec fn with_dns_hosts(hosts: Seq<u32>, servers: Seq<IpAddress>) -> Seq<u32>
    decreases servers.len(),
{
    if servers.len() == 0 {
        hosts
    } else {
        let h = with_dns_hosts(hosts, servers.drop_last());
        match servers.last() {
            IpAddress::V4(ip) => if ip / 16777216 != 127 && !h.contains(ip) {
                h.push(ip)
            } else {
                h
            },
            IpAddress::V6(_) => h,
        }
    }
}

proof fn lemma_with_dns_hosts_props(hosts: Seq<u32>, servers: Seq<IpAddress>)
    ensures
        hosts.is_prefix_of(with_dns_hosts(hosts, servers)),
        forall|i: int|
            hosts.len() <= i < with_dns_hosts(hosts, servers).len() ==> (#[trigger] with_dns_hosts(
                hosts,
                servers,
            )[i]) / 16777216 != 127,
        hosts.no_duplicates() ==> with_dns_hosts(hosts, servers).no_duplicates(),
    decreases servers.len(),
{
    if servers.len() > 0 {
        lemma_with_dns_hosts_props(hosts, servers.drop_last());
        let h = with_dns_hosts(hosts, servers.drop_last());
        match servers.last() {
            IpAddress::V4(ip) => {
                if ip / 16777216 != 127 && !h.contains(ip) {
                    assert forall|i: int|
                        hosts.len() <= i < h.push(ip).len() implies #[trigger] h.push(ip)[i] / 16777216
                        != 127 by {
                        if i < h.len() {
                            assert(h.push(ip)[i] == h[i]);
                        }
                    }
                    assert forall|i: int| 0 <= i < hosts.len() implies h.push(ip)[i] == hosts[i] by {
                        assert(h[i] == hosts[i]);
                    }
                }
            },
            IpAddress::V6(_) => {},
        }
    }
}

/// Add to `hosts` the IPv4 DNS servers that are not loopback and not there
/// yet, in order. What was there stays first; nothing added is loopback;
/// nothing is added twice.
pub fn add_dns_underlay_hosts(hosts: &mut Vec<u32>, dns_servers: &[IpAddress])
    ensures
        final(hosts)@ == with_dns_hosts(old(hosts)@, dns_servers@),
        old(hosts)@.is_prefix_of(final(hosts)@),
        forall|i: int|
            old(hosts)@.len() <= i < final(hosts)@.len() ==> (#[trigger] final(hosts)@[i]) / 16777216
                != 127,
        old(hosts)@.no_duplicates() ==> final(hosts)@.no_duplicates(),
{
    let ghost start = hosts@;
    let mut i: usize = 0;
    proof {
        assert(dns_servers@.take(0) =~= Seq::<IpAddress>::empty());
    }
    while i < dns_servers.len()
        invariant
            i <= dns_servers@.len(),
            hosts@ == with_dns_hosts(start, dns_servers@.take(i as int)),
        decreases dns_servers@.len() - i,
    {
        proof {
            assert(dns_servers@.take(i + 1).drop_last() =~= dns_servers@.take(i as int));
            assert(dns_servers@.take(i + 1).last() == dns_servers@[i as int]);
        }
        match dns_servers[i] {
            IpAddress::V4(ip) => {
                if ip / 16777216 != 127 {
                    let mut present = false;
                    let mut j: usize = 0;
                    while j < hosts.len()
                        invariant
                            j <= hosts@.len(),
                            present == (exists|k: int| 0 <= k < j && hosts@[k] == ip),
                        decreases hosts@.len() - j,
                    {
                        if hosts[j] == ip {
                            present = true;
                        }
                        j = j + 1;
                    }
                    proof {
                        if hosts@.contains(ip) {
                            let w = choose|w: int| 0 <= w < hosts@.len() && hosts@[w] == ip;
                            assert(exists|k: int| 0 <= k < j && hosts@[k] == ip);
                        }
                    }
                    if !present {
                        hosts.push(ip);
                    }
                }
            },
            IpAddress::V6(_) => {},
        }
        i = i + 1;
    }
    proof {
        assert(dns_servers@.take(dns_servers@.len() as int) =~= dns_servers@);
        lemma_with_dns_hosts_props(start, dns_servers@);
    }
}

/// The gateway comes from the interface before the host default, and from
/// IPv4 before IPv6 within each; it is the first address listed there, and
/// there is one whenever any address is listed.
pub proof fn law_gateway_prefers_interface_then_ipv4(
    iface_v4: Seq<u32>,
    iface_v6: Seq<u128>,
    default_v4: Seq<u32>,
    default_v6: Seq<u128>,
)
    ensures
        iface_v4.len() > 0 ==> spec_choose_gateway(iface_v4, iface_v6, default_v4, default_v6) == Some(
            IpAddress::V4(iface_v4[0]),
        ),
        iface_v4.len() == 0 && iface_v6.len() > 0 ==> spec_choose_gateway(
            iface_v4,
            iface_v6,
            default_v4,
            default_v6,
        ) == Some(IpAddress::V6(iface_v6[0])),
        iface_v4.len() == 0 && iface_v6.len() == 0 && default_v4.len() > 0 ==> spec_choose_gateway(
            iface_v4,
            iface_v6,
            default_v4,
            default_v6,
        ) == Some(IpAddress::V4(default_v4[0])),
        iface_v4.len() == 0 && iface_v6.len() == 0 && default_v4.len() == 0 && default_v6.len() > 0
            ==> spec_choose_gateway(iface_v4, iface_v6, default_v4, default_v6) == Some(
            IpAddress::V6(default_v6[0]),
        ),
        spec_choose_gateway(iface_v4, iface_v6, default_v4, default_v6) is None <==> (iface_v4.len()
            == 0 && iface_v6.len() == 0 && default_v4.len() == 0 && default_v6.len() == 0),
{
}

} // verus!
