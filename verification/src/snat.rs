//! Source NAT for the traffic of extra WireGuard peers.
//!
//! Outbound (tun → WireGuard): if the destination is in any extra peer's
//! allowed IPs, the source is rewritten from the primary VPN address to the
//! extra address. Inbound (WireGuard → tun): if the destination is the extra
//! address, it is rewritten back to the primary VPN address so that the
//! kernel delivers it to the originating socket.

use crate::checksum::{addr_words, congruent};
use crate::net::{
    be32, ip_packet_destination, ipnetwork_contains, net_contains, nets_contain,
    packet_destination, IpAddress, IpNet,
};
use crate::packet::{
    header_len, is_ipv4_with_len, lemma_rewrite_fields, lemma_rewrite_keeps_header_sum,
    lemma_rewrite_same_address_twice,
    lemma_rewrite_keeps_transport_sum, read_be32, rewrite_ipv4_dst, rewrite_ipv4_src,
    transport_checksum_offset, with_rewritten_address, word_sum,
};
use crate::peer::ExtraPeerConfig;
use vstd::prelude::*;

verus! {

/// The IPv4 addresses of `addrs`, in order.
pub open spec fn v4_addresses(addrs: Seq<IpAddress>) -> Seq<u32>
    decreases addrs.len(),
{
    if addrs.len() == 0 {
        Seq::empty()
    } else {
        v4_addresses(addrs.drop_last()) + match addrs.last() {
            IpAddress::V4(a) => seq![a],
            IpAddress::V6(_) => Seq::empty(),
        }
    }
}

/// The IPv4 networks of `nets`, in order.
pub open spec fn v4_nets(nets: Seq<IpNet>) -> Seq<IpNet>
    decreases nets.len(),
{
    if nets.len() == 0 {
        Seq::empty()
    } else {
        v4_nets(nets.drop_last()) + if nets.last().ip.is_v4() {
            seq![nets.last()]
        } else {
            Seq::empty()
        }
    }
}

/// The IPv4 allowed IPs of all `peers`, peer by peer, in order.
pub open spec fn peers_v4_nets(peers: Seq<ExtraPeerConfig>) -> Seq<IpNet>
    decreases peers.len(),
{
    if peers.len() == 0 {
        Seq::empty()
    } else {
        peers_v4_nets(peers.drop_last()) + v4_nets(peers.last().allowed_ips@)
    }
}

/// The `i`-th element of `s`, if it has one.
pub open spec fn nth<T>(s: Seq<T>, i: int) -> Option<T> {
    if 0 <= i < s.len() {
        Some(s[i])
    } else {
        None
    }
}

/// Number of pending packets buffered for the extra-peer device.
pub const EXTRA_PEER_CHANNEL_CAPACITY: usize = 128;

/// SNAT configuration derived from the WireGuard config.
#[derive(Clone, Debug)]
pub struct SnatConfig {
    /// The extra IPv4 address to use as the source for extra-peer-bound packets.
    pub extra_addr_v4: Option<u32>,
    /// The primary VPN IPv4 address (reverse SNAT: rewrite dst back to this).
    pub primary_addr_v4: Option<u32>,
    /// IPv4 allowed-IPs from all extra peers — packets to these are SNAT'd.
    pub extra_peer_nets: Vec<IpNet>,
}

impl SnatConfig {
    /// The extra and the primary address, when SNAT is active: there are
    /// extra peer networks and both addresses are known.
    pub open spec fn spec_active_addrs(self) -> Option<(u32, u32)> {
        if self.extra_peer_nets@.len() == 0 {
            None
        } else {
            match (self.extra_addr_v4, self.primary_addr_v4) {
                (Some(e), Some(p)) => Some((e, p)),
                _ => None,
            }
        }
    }

    /// Derives the SNAT configuration from the tunnel addresses and the extra
    /// peers. The daemon merges extra addresses into the tunnel addresses via
    /// `extend()`, so the Mullvad VPN address is always first; extra peer
    /// addresses follow: the first IPv4 address is the primary address and
    /// the second the extra one.
    pub fn from_config(tunnel_addresses: &Vec<IpAddress>, extra_peers: &Vec<ExtraPeerConfig>) -> (r:
        SnatConfig)
        ensures
            r.primary_addr_v4 == nth(v4_addresses(tunnel_addresses@), 0),
            r.extra_addr_v4 == nth(v4_addresses(tunnel_addresses@), 1),
            r.extra_peer_nets@ == peers_v4_nets(extra_peers@),
    {
        let mut primary_addr_v4: Option<u32> = None;
        let mut extra_addr_v4: Option<u32> = None;
        let n = tunnel_addresses.len();
        for i in 0..n
            invariant
                n == tunnel_addresses@.len(),
                primary_addr_v4 == nth(v4_addresses(tunnel_addresses@.take(i as int)), 0),
                extra_addr_v4 == nth(v4_addresses(tunnel_addresses@.take(i as int)), 1),
        {
            assert(tunnel_addresses@.take(i + 1).drop_last() =~= tunnel_addresses@.take(i as int));
            match tunnel_addresses[i] {
                IpAddress::V4(a) => {
                    if primary_addr_v4.is_none() {
                        primary_addr_v4 = Some(a);
                    } else if extra_addr_v4.is_none() {
                        extra_addr_v4 = Some(a);
                    }
                },
                IpAddress::V6(_) => {},
            }
        }
        assert(tunnel_addresses@.take(n as int) =~= tunnel_addresses@);

        let mut extra_peer_nets: Vec<IpNet> = Vec::new();
        let m = extra_peers.len();
        for i in 0..m
            invariant
                m == extra_peers@.len(),
                extra_peer_nets@ == peers_v4_nets(extra_peers@.take(i as int)),
        {
            assert(extra_peers@.take(i + 1).drop_last() =~= extra_peers@.take(i as int));
            let allowed = &extra_peers[i].allowed_ips;
            let k = allowed.len();
            let ghost before = extra_peer_nets@;
            for j in 0..k
                invariant
                    k == allowed@.len(),
                    extra_peer_nets@ == before + v4_nets(allowed@.take(j as int)),
            {
                assert(allowed@.take(j + 1).drop_last() =~= allowed@.take(j as int));
                let net = allowed[j];
                if net.is_ipv4() {
                    extra_peer_nets.push(net);
                }
                assert(extra_peer_nets@ =~= before + v4_nets(allowed@.take(j + 1)));
            }
            assert(allowed@.take(k as int) =~= allowed@);
        }
        assert(extra_peers@.take(m as int) =~= extra_peers@);
        SnatConfig { primary_addr_v4, extra_addr_v4, extra_peer_nets }
    }

    /// The extra and the primary address, when SNAT is active.
    pub fn active_addrs(&self) -> (r: Option<(u32, u32)>)
        ensures
            r == self.spec_active_addrs(),
    {
        if self.extra_peer_nets.len() == 0 {
            return None;
        }
        match (self.extra_addr_v4, self.primary_addr_v4) {
            (Some(e), Some(p)) => Some((e, p)),
            _ => None,
        }
    }
}

/// Some network of `nets` contains `ip`.
fn any_net_contains(nets: &[IpNet], ip: IpAddress) -> (r: bool)
    ensures
        r == nets_contain(nets@, ip),
{
    let n = nets.len();
    for i in 0..n
        invariant
            n == nets@.len(),
            forall|j: int| 0 <= j < i ==> !net_contains(#[trigger] nets@[j], ip),
    {
        if ipnetwork_contains(nets[i], ip) {
            return true;
        }
    }
    false
}

/// The source address field of an IPv4 packet.
pub open spec fn source_v4(b: Seq<u8>) -> u32 {
    be32(b, 12) as u32
}

/// The destination address field of an IPv4 packet.
pub open spec fn destination_v4(b: Seq<u8>) -> u32 {
    be32(b, 16) as u32
}

/// What outbound SNAT makes of packet `b`: when SNAT is active, `b` is an
/// IPv4 packet of at least 20 bytes, its destination lies in an extra peer
/// network and its source is not yet the extra address, the source is
/// rewritten to the extra address; otherwise `b` is left as it is.
pub open spec fn outbound_packet(b: Seq<u8>, config: SnatConfig) -> Seq<u8> {
    match config.spec_active_addrs() {
        Some((extra, _)) => if b.len() >= 20 && b[0] / 16 == 4 && nets_contain(
            config.extra_peer_nets@,
            IpAddress::V4(destination_v4(b)),
        ) && source_v4(b) != extra {
            with_rewritten_address(b, 12, source_v4(b), extra)
        } else {
            b
        },
        None => b,
    }
}

/// What inbound SNAT makes of packet `b`: when SNAT is active and `b` is an
/// IPv4 packet of at least 20 bytes whose destination is the extra address,
/// the destination is rewritten to the primary address; otherwise `b` is
/// left as it is.
pub open spec fn inbound_packet(b: Seq<u8>, config: SnatConfig) -> Seq<u8> {
    match config.spec_active_addrs() {
        Some((extra, primary)) => if b.len() >= 20 && b[0] / 16 == 4 && destination_v4(b)
            == extra {
            with_rewritten_address(b, 16, extra, primary)
        } else {
            b
        },
        None => b,
    }
}

/// The address words of the IPv4 pseudo-header (source and destination)
/// that TCP and UDP checksums cover.
pub open spec fn pseudo_header_words(b: Seq<u8>) -> int {
    addr_words(source_v4(b)) + addr_words(destination_v4(b))
}

/// The sums that the checksums of an IPv4 packet with a well-formed header
/// verify are the same, in ones' complement arithmetic, in `b` and `r`: the
/// words of the header, and the words of the transport segment together
/// with the pseudo-header addresses when the segment carries a TCP or UDP
/// checksum (otherwise the segment is unchanged).
pub open spec fn checksums_kept(b: Seq<u8>, r: Seq<u8>) -> bool {
    let hl = header_len(b);
    &&& r.len() == b.len()
    &&& congruent(word_sum(r.subrange(0, hl)), word_sum(b.subrange(0, hl)))
    &&& hl < b.len() ==> match transport_checksum_offset(b.subrange(hl, b.len() as int), b[9]) {
        Some(_) => congruent(
            word_sum(r.subrange(hl, r.len() as int)) + pseudo_header_words(r),
            word_sum(b.subrange(hl, b.len() as int)) + pseudo_header_words(b),
        ),
        None => r.subrange(hl, r.len() as int) == b.subrange(hl, b.len() as int),
    }
}

proof fn lemma_rewrite_keeps_checksums(b: Seq<u8>, at: int, new_addr: u32)
    requires
        b.len() >= 20,
        20 <= header_len(b) <= b.len(),
        at == 12 || at == 16,
    ensures
        checksums_kept(b, with_rewritten_address(b, at, be32(b, at) as u32, new_addr)),
        be32(with_rewritten_address(b, at, be32(b, at) as u32, new_addr), at) == new_addr,
        be32(with_rewritten_address(b, at, be32(b, at) as u32, new_addr), 28 - at) == be32(
            b,
            28 - at,
        ),
        with_rewritten_address(b, at, be32(b, at) as u32, new_addr)[0] == b[0],
{
    let old_addr = be32(b, at) as u32;
    let r = with_rewritten_address(b, at, old_addr, new_addr);
    let hl = header_len(b);
    lemma_rewrite_fields(b, at, old_addr, new_addr);
    lemma_rewrite_keeps_header_sum(b, at, old_addr, new_addr);
    let other = 28 - at;
    assert(r[other] == b[other]);
    assert(r[other + 1] == b[other + 1]);
    assert(r[other + 2] == b[other + 2]);
    assert(r[other + 3] == b[other + 3]);
    if hl < b.len() {
        lemma_rewrite_keeps_transport_sum(b, at, old_addr, new_addr);
        match transport_checksum_offset(b.subrange(hl, b.len() as int), b[9]) {
            Some(_) => {
                let k = crate::checksum::lemma_congruent_elim(
                    word_sum(r.subrange(hl, r.len() as int)) + addr_words(new_addr),
                    word_sum(b.subrange(hl, b.len() as int)) + addr_words(old_addr),
                );
                crate::checksum::lemma_congruent_intro(
                    word_sum(r.subrange(hl, r.len() as int)) + pseudo_header_words(r),
                    word_sum(b.subrange(hl, b.len() as int)) + pseudo_header_words(b),
                    k,
                );
            },
            None => {},
        }
    }
}

/// Outbound SNAT keeps the IPv4 header checksum and the TCP/UDP checksum of a
/// packet with a well-formed header valid (the sums they verify are
/// unchanged), and a rewritten packet has the extra address as its source
/// and its destination unchanged.
pub proof fn lemma_outbound_keeps_checksums(b: Seq<u8>, config: SnatConfig)
    requires
        b.len() >= 20,
        20 <= header_len(b) <= b.len(),
    ensures
        checksums_kept(b, outbound_packet(b, config)),
        destination_v4(outbound_packet(b, config)) == destination_v4(b),
        match config.spec_active_addrs() {
            Some((extra, _)) => b[0] / 16 == 4 && nets_contain(
                config.extra_peer_nets@,
                IpAddress::V4(destination_v4(b)),
            ) ==> source_v4(outbound_packet(b, config)) == extra,
            None => outbound_packet(b, config) == b,
        },
{
    let r = outbound_packet(b, config);
    if r != b {
        let extra = (config.spec_active_addrs()->0).0;
        lemma_rewrite_keeps_checksums(b, 12, extra);
    } else {
        crate::checksum::lemma_congruent_intro(word_sum(b.subrange(0, header_len(b))), word_sum(b.subrange(0, header_len(b))), 0);
        if header_len(b) < b.len() {
            let hl = header_len(b);
            crate::checksum::lemma_congruent_intro(
                word_sum(b.subrange(hl, b.len() as int)) + pseudo_header_words(b),
                word_sum(b.subrange(hl, b.len() as int)) + pseudo_header_words(b),
                0,
            );
        }
    }
}

/// Inbound SNAT keeps the IPv4 header checksum and the TCP/UDP checksum of a
/// packet with a well-formed header valid, and a rewritten packet has the
/// primary address as its destination and its source unchanged.
pub proof fn lemma_inbound_keeps_checksums(b: Seq<u8>, config: SnatConfig)
    requires
        b.len() >= 20,
        20 <= header_len(b) <= b.len(),
    ensures
        checksums_kept(b, inbound_packet(b, config)),
        source_v4(inbound_packet(b, config)) == source_v4(b),
        match config.spec_active_addrs() {
            Some((extra, primary)) => b[0] / 16 == 4 && destination_v4(b) == extra
                ==> destination_v4(inbound_packet(b, config)) == primary,
            None => inbound_packet(b, config) == b,
        },
{
    let r = inbound_packet(b, config);
    if r != b {
        let primary = (config.spec_active_addrs()->0).1;
        lemma_rewrite_keeps_checksums(b, 16, primary);
    } else {
        crate::checksum::lemma_congruent_intro(word_sum(b.subrange(0, header_len(b))), word_sum(b.subrange(0, header_len(b))), 0);
        if header_len(b) < b.len() {
            let hl = header_len(b);
            crate::checksum::lemma_congruent_intro(
                word_sum(b.subrange(hl, b.len() as int)) + pseudo_header_words(b),
                word_sum(b.subrange(hl, b.len() as int)) + pseudo_header_words(b),
                0,
            );
        }
    }
}

/// Outbound SNAT is idempotent: a packet it rewrote already has the extra
/// address as its source, so a second pass leaves it as it is.
pub proof fn lemma_outbound_idempotent(b: Seq<u8>, config: SnatConfig)
    ensures
        outbound_packet(outbound_packet(b, config), config) == outbound_packet(b, config),
{
    let r = outbound_packet(b, config);
    if r != b {
        let extra = (config.spec_active_addrs()->0).0;
        lemma_rewrite_fields(b, 12, source_v4(b), extra);
    }
}

/// Inbound SNAT is idempotent: when the extra and the primary address
/// differ, a packet it rewrote is addressed to the primary address, which a
/// second pass leaves alone; when they are the same, a second pass of a
/// packet with a well-formed header changes nothing more.
pub proof fn lemma_inbound_idempotent(b: Seq<u8>, config: SnatConfig)
    requires
        config.extra_addr_v4 != config.primary_addr_v4 || b.len() < 20 || 20 <= header_len(b),
    ensures
        inbound_packet(inbound_packet(b, config), config) == inbound_packet(b, config),
{
    let r = inbound_packet(b, config);
    if let Some((extra, primary)) = config.spec_active_addrs() {
        if b.len() >= 20 && b[0] / 16 == 4 && destination_v4(b) == extra {
            lemma_rewrite_fields(b, 16, extra, primary);
            if extra == primary {
                lemma_rewrite_same_address_twice(b, 16, extra);
            }
        }
    }
}

/// Outbound path (tun → WireGuard peer): rewrite src to the extra peer address.
pub fn snat_outbound(packet: Vec<u8>, config: &SnatConfig) -> (r: Vec<u8>)
    ensures
        r@ == outbound_packet(packet@, *config),
{
    let extra_addr = match config.active_addrs() {
        Some((extra, _)) => extra,
        None => return packet,
    };
    let mut raw = packet;
    if is_ipv4_with_len(raw.as_slice(), 20) {
        let dst = read_be32(&raw, 16);
        if any_net_contains(config.extra_peer_nets.as_slice(), IpAddress::V4(dst)) {
            let old_src = read_be32(&raw, 12);
            if old_src != extra_addr {
                rewrite_ipv4_src(&mut raw, old_src, extra_addr);
            }
        }
    }
    raw
}

/// Inbound path (WireGuard peer → tun): rewrite dst back to the primary VPN address.
pub fn snat_inbound(packet: Vec<u8>, config: &SnatConfig) -> (r: Vec<u8>)
    ensures
        r@ == inbound_packet(packet@, *config),
{
    let (extra_addr, primary_addr) = match config.active_addrs() {
        Some(addrs) => addrs,
        None => return packet,
    };
    let mut raw = packet;
    if is_ipv4_with_len(raw.as_slice(), 20) {
        let dst = read_be32(&raw, 16);
        if dst == extra_addr {
            rewrite_ipv4_dst(&mut raw, extra_addr, primary_addr);
        }
    }
    raw
}

/// Return `true` if the packet's destination IP is covered by one of `nets`.
pub fn is_extra_peer_dest(packet: &[u8], nets: &[IpNet]) -> (r: bool)
    ensures
        r == match packet_destination(packet@) {
            Some(dst) => nets_contain(nets@, dst),
            None => false,
        },
{
    let dst = match ip_packet_destination(packet) {
        Some(dst) => dst,
        None => return false,
    };
    any_net_contains(nets, dst)
}

/// Wraps a tun device to perform SNAT for extra WireGuard peer traffic.
///
/// Outbound (tun → WireGuard): if dst is in any extra peer's allowed-IPs, rewrites
/// src from the primary Mullvad VPN IP to the extra peer address.
///
/// Inbound (WireGuard → tun): if dst is the extra address, rewrites it back to
/// the primary VPN IP so the kernel delivers it to the originating socket.
#[derive(Clone)]
pub struct SnatTunDevice<T> {
    pub inner: T,
    pub config: SnatConfig,
}

impl<T> SnatTunDevice<T> {
    pub fn new(inner: T, config: SnatConfig) -> (r: Self)
        ensures
            r.inner == inner,
            r.config == config,
    {
        SnatTunDevice { inner, config }
    }

    /// The packet to hand to the inner device for a packet sent towards the
    /// tun: inbound SNAT.
    pub fn packet_to_send(&self, packet: Vec<u8>) -> (r: Vec<u8>)
        ensures
            r@ == inbound_packet(packet@, self.config),
    {
        snat_inbound(packet, &self.config)
    }

    /// The packets to hand on for packets received from the inner device:
    /// outbound SNAT of each, in order.
    pub fn packets_received(&self, packets: Vec<Vec<u8>>) -> (r: Vec<Vec<u8>>)
        ensures
            r@.len() == packets@.len(),
            forall|i: int|
                0 <= i < packets@.len() ==> #[trigger] r@[i]@ == outbound_packet(
                    packets@[i]@,
                    self.config,
                ),
    {
        let mut processed: Vec<Vec<u8>> = Vec::new();
        let ghost all = packets@;
        for packet in it: packets.into_iter()
            invariant
                it.seq() == all,
                processed@.len() == it.index(),
                forall|j: int|
                    0 <= j < it.index() ==> #[trigger] processed@[j]@ == outbound_packet(
                        all[j]@,
                        self.config,
                    ),
        {
            processed.push(snat_outbound(packet, &self.config));
        }
        processed
    }
}

} // verus!
