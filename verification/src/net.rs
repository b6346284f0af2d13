//! IP addresses, networks and socket addresses as plain values, with the
//! calls into `ipnetwork` and `gotatun` that read them.

use vstd::arithmetic::power2::pow2;
use vstd::prelude::*;

verus! {

/// An IP address: IPv4 as the big-endian value of its four octets, IPv6 as
/// the big-endian value of its sixteen octets.
#[derive(Clone, Copy, Debug, PartialEq, Eq, Structural)]
pub enum IpAddress {
    V4(u32),
    V6(u128),
}

impl IpAddress {
    pub open spec fn is_v4(self) -> bool {
        self is V4
    }

    /// `true` for an IPv4 address.
    pub fn is_ipv4(&self) -> (r: bool)
        ensures
            r == self.is_v4(),
    {
        match self {
            IpAddress::V4(_) => true,
            IpAddress::V6(_) => false,
        }
    }
}

/// An IP network in CIDR notation: an address and a prefix length. The
/// address need not be the first address of the network.
#[derive(Clone, Copy, Debug, PartialEq, Eq, Structural)]
pub struct IpNet {
    pub ip: IpAddress,
    pub prefix: u8,
}

/// The number of bits of an address of the same family as `ip`.
pub open spec fn address_bits(ip: IpAddress) -> nat {
    match ip {
        IpAddress::V4(_) => 32,
        IpAddress::V6(_) => 128,
    }
}

/// The value of an address as a number.
pub open spec fn address_value(ip: IpAddress) -> nat {
    match ip {
        IpAddress::V4(a) => a as nat,
        IpAddress::V6(a) => a as nat,
    }
}

impl IpNet {
    /// The prefix length fits the address family.
    pub open spec fn wf(self) -> bool {
        self.prefix <= address_bits(self.ip)
    }

    /// The network address as it was written.
    pub fn ip(&self) -> (r: IpAddress)
        ensures
            r == self.ip,
    {
        self.ip
    }

    /// The prefix length.
    pub fn prefix(&self) -> (r: u8)
        ensures
            r == self.prefix,
    {
        self.prefix
    }

    /// `true` for an IPv4 network.
    pub fn is_ipv4(&self) -> (r: bool)
        ensures
            r == self.ip.is_v4(),
    {
        self.ip.is_ipv4()
    }
}

/// `ip` lies in `net`: both are of the same family, the prefix is valid and
/// the first `prefix` bits of `ip` are those of the network address.
pub open spec fn net_contains(net: IpNet, ip: IpAddress) -> bool {
    &&& net.wf()
    &&& net.ip.is_v4() == ip.is_v4()
    &&& address_value(ip) / pow2((address_bits(ip) - net.prefix) as nat) == address_value(net.ip)
        / pow2((address_bits(ip) - net.prefix) as nat)
}

/// Some network of `nets` contains `ip`.
pub open spec fn nets_contain(nets: Seq<IpNet>, ip: IpAddress) -> bool {
    exists|i: int| 0 <= i < nets.len() && net_contains(#[trigger] nets[i], ip)
}

/// A socket address: an IP address and a port (and, for IPv6, the flow
/// information and scope id that take part in its equality).
#[derive(Clone, Copy, Debug, PartialEq, Eq, Structural)]
#[allow(inconsistent_fields)]
pub enum SocketAddress {
    V4 { ip: u32, port: u16 },
    V6 { ip: u128, port: u16, flowinfo: u32, scope_id: u32 },
}

impl SocketAddress {
    pub open spec fn is_v4(self) -> bool {
        self is V4
    }

    /// `true` for an IPv4 socket address.
    pub fn is_ipv4(&self) -> (r: bool)
        ensures
            r == self.is_v4(),
    {
        match self {
            SocketAddress::V4 { .. } => true,
            SocketAddress::V6 { .. } => false,
        }
    }
}

/// What `ipnetwork`'s `IpNetwork::from_str` reads from `text`: the network,
/// or the text of its error (`IpNetworkError`'s `Display`).
pub uninterp spec fn parsed_ip_network(text: Seq<char>) -> Result<IpNet, Seq<char>>;

/// Calls `<ipnetwork::IpNetwork as FromStr>::from_str` on `text`, and on
/// failure renders the `IpNetworkError` with `to_string`.
/// Trusted: the result is the parse that `parsed_ip_network` names, and a
/// network it returns has a prefix that fits its family (its source builds
/// every network through `Ipv4Network::new` / `Ipv6Network::new`, which
/// refuse a longer prefix). What text it accepts, and the error texts, are
/// left unstated.
#[verifier::external_body]
pub(crate) fn parse_ip_network(text: &[char]) -> (r: Result<IpNet, Vec<char>>)
    ensures
        match r {
            Ok(net) => parsed_ip_network(text@) == Ok::<IpNet, Seq<char>>(net) && net.wf(),
            Err(e) => parsed_ip_network(text@) == Err::<IpNet, Seq<char>>(e@),
        },
{
    let s: String = text.iter().collect();
    match s.parse::<ipnetwork::IpNetwork>() {
        Ok(ipnetwork::IpNetwork::V4(n)) => Ok(IpNet { ip: IpAddress::V4(u32::from(n.ip())), prefix: n.prefix() }),
        Ok(ipnetwork::IpNetwork::V6(n)) => Ok(IpNet { ip: IpAddress::V6(u128::from(n.ip())), prefix: n.prefix() }),
        Err(e) => Err(e.to_string().chars().collect()),
    }
}

/// Calls `ipnetwork::IpNetwork::new(net.ip, net.prefix)` and then
/// `IpNetwork::contains(ip)` on the network. Trusted: the source masks both
/// addresses with the first `prefix` bits and compares them, returns `false`
/// for addresses of different families, and `new` refuses (here: `false`) a
/// prefix longer than the family's address.
#[verifier::external_body]
pub(crate) fn ipnetwork_contains(net: IpNet, ip: IpAddress) -> (r: bool)
    ensures
        r == net_contains(net, ip),
{
    let to_std = |a: IpAddress| match a {
        IpAddress::V4(v) => core::net::IpAddr::V4(core::net::Ipv4Addr::from(v)),
        IpAddress::V6(v) => core::net::IpAddr::V6(core::net::Ipv6Addr::from(v)),
    };
    match ipnetwork::IpNetwork::new(to_std(net.ip), net.prefix) {
        Ok(n) => n.contains(to_std(ip)),
        Err(_) => false,
    }
}

/// Big-endian value of the four bytes of `b` at `at`.
pub open spec fn be32(b: Seq<u8>, at: int) -> nat {
    (b[at] as nat) * 0x1000000 + (b[at + 1] as nat) * 0x10000 + (b[at + 2] as nat) * 0x100 + (
    b[at + 3] as nat)
}

/// Big-endian value of the sixteen bytes of `b` at `at`.
pub open spec fn be128(b: Seq<u8>, at: int) -> nat {
    be32(b, at) * 0x1000000000000000000000000 + be32(b, at + 4) * 0x10000000000000000 + be32(
        b,
        at + 8,
    ) * 0x100000000 + be32(b, at + 12)
}

/// The destination address of an IP packet: for version 4 (the high nibble
/// of the first byte) with at least a 20-byte header the address at bytes
/// 16..20, for version 6 with at least a 40-byte header the address at bytes
/// 24..40, and `None` otherwise.
pub open spec fn packet_destination(b: Seq<u8>) -> Option<IpAddress> {
    if b.len() >= 20 && b[0] / 16 == 4 {
        Some(IpAddress::V4(be32(b, 16) as u32))
    } else if b.len() >= 40 && b[0] / 16 == 6 {
        Some(IpAddress::V6(be128(b, 24) as u128))
    } else {
        None
    }
}

/// Reads the destination of the IP packet in `bytes` through `gotatun`:
/// `Packet::copy_from`, `Packet::try_into_ip` and `Ip::destination`.
/// Trusted: `try_into_ip` refuses fewer than 20 bytes, and `destination`
/// reads the version nibble and the big-endian destination field of the
/// IPv4 (20-byte) or IPv6 (40-byte) header, `None` when the bytes are too
/// few for that header or the version is neither.
#[verifier::external_body]
pub(crate) fn ip_packet_destination(bytes: &[u8]) -> (r: Option<IpAddress>)
    ensures
        r == packet_destination(bytes@),
{
    let packet = gotatun::packet::Packet::<[u8]>::copy_from(bytes);
    match packet.try_into_ip().ok()?.destination()? {
        core::net::IpAddr::V4(a) => Some(IpAddress::V4(u32::from(a))),
        core::net::IpAddr::V6(a) => Some(IpAddress::V6(u128::from(a))),
    }
}

} // verus!
