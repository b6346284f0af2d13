//! The decisions of the manager that keeps the endpoint of each extra
//! WireGuard peer resolved and up to date, and of the glue that hands its
//! traffic to a separate device. The caller performs the I/O (name
//! resolution, timers, talking to the tunnel) and reports back.

use crate::net::{nets_contain, packet_destination, IpNet, SocketAddress};
use crate::peer::ExtraPeerConfig;
use crate::snat::is_extra_peer_dest;
use vstd::prelude::*;

verus! {

/// How often an extra peer's endpoint is resolved when it sets no interval.
pub const DEFAULT_RESOLVE_INTERVAL_SECS: u64 = 300;

/// How often the peer's statistics are polled for staleness.
pub const STALE_POLL_INTERVAL_SECS: u64 = 20;

/// A handshake older than this (in nanoseconds: 90 s) makes the peer stale.
pub const STALE_HANDSHAKE_NANOS: u128 = 90_000_000_000;

/// The least time (in nanoseconds: 60 s) between two forced resolutions.
pub const FORCED_RESOLVE_COOLDOWN_NANOS: u128 = 60_000_000_000;

/// The resolve interval of a peer, in seconds: its own unless it is unset
/// or zero, then the default.
pub fn resolve_interval_secs(peer: &ExtraPeerConfig) -> (r: u64)
    ensures
        r == match peer.resolve_interval_secs {
            Some(s) => if s != 0 {
                s
            } else {
                DEFAULT_RESOLVE_INTERVAL_SECS
            },
            None => DEFAULT_RESOLVE_INTERVAL_SECS,
        },
{
    match peer.resolve_interval_secs {
        Some(s) => if s != 0 {
            s
        } else {
            DEFAULT_RESOLVE_INTERVAL_SECS
        },
        None => DEFAULT_RESOLVE_INTERVAL_SECS,
    }
}

/// The endpoint to use among the resolved addresses: the first IPv4
/// address, so that the endpoint matches the outbound socket family, else
/// the first address.
pub open spec fn preferred_endpoint(addrs: Seq<SocketAddress>) -> Option<SocketAddress> {
    if exists|i: int| 0 <= i < addrs.len() && (#[trigger] addrs[i]).is_v4() {
        let i = choose|i: int|
            0 <= i < addrs.len() && (#[trigger] addrs[i]).is_v4() && forall|j: int|
                0 <= j < i ==> !addrs[j].is_v4();
        Some(addrs[i])
    } else if addrs.len() > 0 {
        Some(addrs[0])
    } else {
        None
    }
}

/// Picks the endpoint among resolved addresses, preferring IPv4.
pub fn select_endpoint(addrs: &[SocketAddress]) -> (r: Option<SocketAddress>)
    ensures
        r == preferred_endpoint(addrs@),
        r matches Some(a) ==> addrs@.contains(a),
{
    let mut fallback: Option<SocketAddress> = None;
    let n = addrs.len();
    for i in 0..n
        invariant
            n == addrs@.len(),
            forall|j: int| 0 <= j < i ==> !(#[trigger] addrs@[j]).is_v4(),
            fallback == if i == 0 {
                None
            } else {
                Some(addrs@[0])
            },
    {
        let addr = addrs[i];
        if addr.is_ipv4() {
            let ghost k = choose|k: int|
                0 <= k < addrs@.len() && (#[trigger] addrs@[k]).is_v4() && forall|j: int|
                    0 <= j < k ==> !addrs@[j].is_v4();
            assert(0 <= i < addrs@.len() && addrs@[i as int].is_v4() && forall|j: int|
                0 <= j < i ==> !addrs@[j].is_v4());
            assert(k == i) by {
                if k < i {
                    assert(!addrs@[k].is_v4());
                } else if k > i {
                }
            }
            return Some(addr);
        }
        if fallback.is_none() {
            fallback = Some(addr);
        }
    }
    proof {
        if n > 0 {
            assert(addrs@.contains(addrs@[0]));
        }
    }
    fallback
}

/// What the manager of one extra peer remembers between events.
#[derive(Clone, Copy, Debug, PartialEq, Eq, Structural)]
pub struct PeerManagerState {
    /// The endpoint last handed to the tunnel successfully.
    pub last_endpoint: Option<SocketAddress>,
    /// The bytes sent to the peer at the last staleness poll.
    pub last_tx_bytes: u64,
}

impl PeerManagerState {
    /// Whether a freshly resolved `endpoint` is handed to the tunnel.
    pub open spec fn needs_update(self, endpoint: SocketAddress, force_update: bool) -> bool {
        force_update || self.last_endpoint != Some(endpoint)
    }

    /// The state after the tunnel answered an update of the peer with
    /// `endpoint`.
    pub open spec fn after_update(self, endpoint: SocketAddress, updated: bool) -> PeerManagerState {
        if updated {
            PeerManagerState { last_endpoint: Some(endpoint), ..self }
        } else {
            self
        }
    }

    /// The state when the manager starts.
    pub fn new() -> (r: PeerManagerState)
        ensures
            r.last_endpoint is None,
            r.last_tx_bytes == 0,
    {
        PeerManagerState { last_endpoint: None, last_tx_bytes: 0 }
    }

    /// Whether a freshly resolved `endpoint` is handed to the tunnel: always
    /// when forced, otherwise only when it differs from the last one.
    pub fn endpoint_needs_update(&self, endpoint: SocketAddress, force_update: bool) -> (r: bool)
        ensures
            r == self.needs_update(endpoint, force_update),
            force_update ==> r,
            !force_update ==> (r <==> self.last_endpoint != Some(endpoint)),
    {
        if force_update {
            return true;
        }
        match self.last_endpoint {
            Some(last) => last != endpoint,
            None => true,
        }
    }

    /// Records the tunnel's answer to adding or updating the peer with
    /// `endpoint`: the endpoint is remembered only when the peer was found
    /// and updated.
    pub fn record_update(&mut self, endpoint: SocketAddress, updated: bool)
        ensures
            *final(self) == old(self).after_update(endpoint, updated),
            final(self).last_endpoint == if updated {
                Some(endpoint)
            } else {
                old(self).last_endpoint
            },
            final(self).last_tx_bytes == old(self).last_tx_bytes,
    {
        if updated {
            self.last_endpoint = Some(endpoint);
        }
    }

    /// A staleness poll with the peer's current statistics: the bytes sent
    /// to it, the age of its last handshake in nanoseconds (`None`: no
    /// handshake, or one in the future), and the nanoseconds since the last
    /// forced resolution. Returns whether to force a resolution now: when
    /// new packets were sent since the last poll, the handshake is older than
    /// 90 s (or missing), and the last forced resolution is at least 60 s
    /// ago. The sent bytes are remembered.
    pub fn poll_stale(
        &mut self,
        tx_bytes: u64,
        handshake_age_nanos: Option<u128>,
        since_forced_resolve_nanos: u128,
    ) -> (r: bool)
        ensures
            final(self).last_tx_bytes == tx_bytes,
            final(self).last_endpoint == old(self).last_endpoint,
            r == (tx_bytes > old(self).last_tx_bytes && match handshake_age_nanos {
                Some(age) => age > STALE_HANDSHAKE_NANOS,
                None => true,
            } && since_forced_resolve_nanos >= FORCED_RESOLVE_COOLDOWN_NANOS),
    {
        let sent_new_packets = tx_bytes > self.last_tx_bytes;
        self.last_tx_bytes = tx_bytes;
        let stale = match handshake_age_nanos {
            Some(age) => age > STALE_HANDSHAKE_NANOS,
            None => true,
        };
        sent_new_packets && stale && since_forced_resolve_nanos >= FORCED_RESOLVE_COOLDOWN_NANOS
    }
}

/// Statistics of the peer read at a staleness poll.
#[derive(Clone, Copy, Debug, PartialEq, Eq, Structural)]
pub struct StatsSample {
    /// The bytes sent to the peer.
    pub tx_bytes: u64,
    /// The age of the last handshake in nanoseconds (`None`: no handshake, or
    /// one in the future).
    pub handshake_age_nanos: Option<u128>,
}

/// What happens to the manager of an extra peer.
#[derive(Clone, Copy, Debug, PartialEq, Eq, Structural)]
pub enum PeerEvent {
    /// The resolve interval elapsed.
    ResolveTick,
    /// A refresh of all endpoints was requested.
    RefreshRequested,
    /// The staleness poll interval elapsed; the peer's statistics if they
    /// could be read, and the nanoseconds since the last forced resolution.
    StalePoll { stats: Option<StatsSample>, since_forced_resolve_nanos: u128 },
}

/// What the manager does next.
#[derive(Clone, Copy, Debug, PartialEq, Eq, Structural)]
pub enum PeerAction {
    Nothing,
    /// Resolve the endpoint and hand it to the tunnel (always when forced,
    /// otherwise when it changed); when `restart_cooldown`, the forced
    /// resolution cooldown starts again now.
    Resolve { force_update: bool, restart_cooldown: bool },
}

/// The action with which the manager starts: an unforced resolution.
pub open spec fn initial_action() -> PeerAction {
    PeerAction::Resolve { force_update: false, restart_cooldown: false }
}

impl PeerManagerState {
    /// The state and action after `event`: a resolve tick resolves without
    /// forcing; a refresh resolves and forces the update; a staleness poll
    /// without statistics does nothing, and with them forces a resolution
    /// and restarts the cooldown exactly when `poll_stale` says so.
    pub open spec fn next(self, event: PeerEvent) -> (PeerManagerState, PeerAction) {
        match event {
            PeerEvent::ResolveTick => (
                self,
                PeerAction::Resolve { force_update: false, restart_cooldown: false },
            ),
            PeerEvent::RefreshRequested => (
                self,
                PeerAction::Resolve { force_update: true, restart_cooldown: false },
            ),
            PeerEvent::StalePoll { stats, since_forced_resolve_nanos } => match stats {
                None => (self, PeerAction::Nothing),
                Some(sample) => {
                    let force = sample.tx_bytes > self.last_tx_bytes && match sample.handshake_age_nanos {
                        Some(age) => age > STALE_HANDSHAKE_NANOS,
                        None => true,
                    } && since_forced_resolve_nanos >= FORCED_RESOLVE_COOLDOWN_NANOS;
                    (
                        PeerManagerState { last_tx_bytes: sample.tx_bytes, ..self },
                        if force {
                            PeerAction::Resolve { force_update: true, restart_cooldown: true }
                        } else {
                            PeerAction::Nothing
                        },
                    )
                },
            },
        }
    }

    /// The state and action with which the manager starts.
    pub fn start() -> (r: (PeerManagerState, PeerAction))
        ensures
            r.0.last_endpoint is None,
            r.0.last_tx_bytes == 0,
            r.1 == initial_action(),
    {
        (PeerManagerState::new(), PeerAction::Resolve { force_update: false, restart_cooldown: false })
    }

    /// Steps the manager on `event`.
    pub fn on_event(&mut self, event: PeerEvent) -> (r: PeerAction)
        ensures
            (*final(self), r) == old(self).next(event),
            event is ResolveTick ==> *final(self) == *old(self) && r == (PeerAction::Resolve {
                force_update: false,
                restart_cooldown: false,
            }),
            event is RefreshRequested ==> *final(self) == *old(self) && r == (PeerAction::Resolve {
                force_update: true,
                restart_cooldown: false,
            }),
            event matches PeerEvent::StalePoll { stats: None, .. } ==> *final(self) == *old(self)
                && r == PeerAction::Nothing,
            event matches PeerEvent::StalePoll { stats: Some(sample), since_forced_resolve_nanos }
                ==> {
                &&& final(self).last_endpoint == old(self).last_endpoint
                &&& final(self).last_tx_bytes == sample.tx_bytes
                &&& r == if sample.tx_bytes > old(self).last_tx_bytes && match sample.handshake_age_nanos {
                    Some(age) => age > STALE_HANDSHAKE_NANOS,
                    None => true,
                } && since_forced_resolve_nanos >= FORCED_RESOLVE_COOLDOWN_NANOS {
                    (PeerAction::Resolve { force_update: true, restart_cooldown: true })
                } else {
                    PeerAction::Nothing
                }
            },
    {
        match event {
            PeerEvent::ResolveTick => PeerAction::Resolve { force_update: false, restart_cooldown: false },
            PeerEvent::RefreshRequested => PeerAction::Resolve {
                force_update: true,
                restart_cooldown: false,
            },
            PeerEvent::StalePoll { stats, since_forced_resolve_nanos } => match stats {
                None => PeerAction::Nothing,
                Some(sample) => {
                    if self.poll_stale(
                        sample.tx_bytes,
                        sample.handshake_age_nanos,
                        since_forced_resolve_nanos,
                    ) {
                        PeerAction::Resolve { force_update: true, restart_cooldown: true }
                    } else {
                        PeerAction::Nothing
                    }
                },
            },
        }
    }
}

/// A forced resolution that restarts the cooldown comes only from a
/// staleness poll at least 60 s after the last one, and no event changes the
/// remembered endpoint.
pub proof fn lemma_forced_resolutions_respect_cooldown(st: PeerManagerState, event: PeerEvent)
    ensures
        st.next(event).0.last_endpoint == st.last_endpoint,
        st.next(event).1 matches PeerAction::Resolve { restart_cooldown: true, .. } ==> (
        event matches PeerEvent::StalePoll { since_forced_resolve_nanos, .. }
            && since_forced_resolve_nanos >= FORCED_RESOLVE_COOLDOWN_NANOS),
{
}

/// Once an endpoint has been handed to the tunnel and the peer was updated,
/// resolving the same endpoint again does not update the tunnel unless the
/// update is forced. A failed update leaves the state as it was, so the next resolution of the
/// same endpoint tries again.
pub proof fn lemma_unchanged_endpoint_not_updated(
    st: PeerManagerState,
    endpoint: SocketAddress,
    force_update: bool,
)
    ensures
        st.after_update(endpoint, true).needs_update(endpoint, force_update) == force_update,
        st.after_update(endpoint, false) == st,
        st.last_endpoint is None ==> st.after_update(endpoint, false).needs_update(endpoint, false),
{
}

/// Unforced, a resolved endpoint is handed to the tunnel exactly when it
/// differs from the last one recorded: any change of address, port or (for
/// IPv6) flow information or scope id counts, and with nothing recorded yet
/// every endpoint is handed on. Forced, it always is. After a successful
/// update with `endpoint`, the next unforced resolution hands on exactly the
/// endpoints other than `endpoint`.
pub proof fn lemma_update_exactly_on_change(
    st: PeerManagerState,
    endpoint: SocketAddress,
    next_endpoint: SocketAddress,
)
    ensures
        st.needs_update(endpoint, true),
        st.needs_update(endpoint, false) <==> st.last_endpoint != Some(endpoint),
        st.last_endpoint is None ==> st.needs_update(endpoint, false),
        (st.last_endpoint matches Some(last) && last != endpoint) ==> st.needs_update(
            endpoint,
            false,
        ),
        st.after_update(endpoint, true).needs_update(next_endpoint, false) <==> next_endpoint
            != endpoint,
{
}

/// A description of the GotaTun peer of an extra peer, as plain values.
#[derive(Debug)]
pub struct GotatunPeerSettings {
    pub public_key: Vec<u8>,
    pub allowed_ips: Vec<IpNet>,
    pub endpoint: Option<SocketAddress>,
    pub preshared_key: Option<Vec<u8>>,
    pub keepalive: Option<u16>,
}

fn copy_bytes(b: &[u8]) -> (r: Vec<u8>)
    ensures
        r@ == b@,
{
    let mut r: Vec<u8> = Vec::new();
    for i in 0..b.len()
        invariant
            r@ == b@.take(i as int),
    {
        r.push(b[i]);
        assert(r@ =~= b@.take(i + 1));
    }
    assert(b@.take(b@.len() as int) =~= b@);
    r
}

fn copy_nets(nets: &Vec<IpNet>) -> (r: Vec<IpNet>)
    ensures
        r@ == nets@,
{
    let mut r: Vec<IpNet> = Vec::new();
    for i in 0..nets.len()
        invariant
            r@ == nets@.take(i as int),
    {
        r.push(nets[i]);
        assert(r@ =~= nets@.take(i + 1));
    }
    assert(nets@.take(nets@.len() as int) =~= nets@);
    r
}

/// The GotaTun peer of an extra peer: its key and allowed networks, the
/// endpoint if one is known, its preshared key if any, and its persistent
/// keepalive unless it is unset or zero.
pub fn to_gotatun_extra_peer(peer: &ExtraPeerConfig, endpoint: Option<SocketAddress>) -> (r:
    GotatunPeerSettings)
    ensures
        r.public_key@ == peer.public_key@,
        r.allowed_ips@ == peer.allowed_ips@,
        r.endpoint == endpoint,
        match (r.preshared_key, peer.psk) {
            (Some(a), Some(b)) => a@ == b@,
            (None, None) => true,
            _ => false,
        },
        r.keepalive == match peer.persistent_keepalive_secs {
            Some(k) => if k != 0 {
                Some(k)
            } else {
                None
            },
            None => None,
        },
{
    let preshared_key = match &peer.psk {
        Some(psk) => Some(copy_bytes(psk.as_bytes())),
        None => None,
    };
    let keepalive = match peer.persistent_keepalive_secs {
        Some(k) => if k != 0 {
            Some(k)
        } else {
            None
        },
        None => None,
    };
    GotatunPeerSettings {
        public_key: copy_bytes(peer.public_key.as_bytes()),
        allowed_ips: copy_nets(&peer.allowed_ips),
        endpoint,
        preshared_key,
        keepalive,
    }
}

/// The packets of `packets` whose destination lies in `nets` (`extra`:
/// true) or not (`extra`: false), in order.
pub open spec fn packets_by_destination(packets: Seq<Vec<u8>>, nets: Seq<IpNet>, extra: bool) -> Seq<
    Seq<u8>,
>
    decreases packets.len(),
{
    if packets.len() == 0 {
        Seq::empty()
    } else {
        let is_extra = match packet_destination(packets.last()@) {
            Some(dst) => nets_contain(nets, dst),
            None => false,
        };
        packets_by_destination(packets.drop_last(), nets, extra) + if is_extra == extra {
            seq![packets.last()@]
        } else {
            Seq::empty()
        }
    }
}

/// The byte views of a sequence of packets.
pub open spec fn packet_views(packets: Seq<Vec<u8>>) -> Seq<Seq<u8>> {
    packets.map_values(|p: Vec<u8>| p@)
}

/// Packets are dispatched by destination alone: those whose destination
/// (IPv4 or IPv6) lies in one of `nets` go to the extra peers, all others
/// (among them those that are no IP packet) to the main device, each list in
/// the order of the input.
pub proof fn lemma_split_by_destination(packets: Seq<Vec<u8>>, nets: Seq<IpNet>)
    ensures
        packets_by_destination(packets, nets, true) == packet_views(packets).filter(
            |p: Seq<u8>|
                match packet_destination(p) {
                    Some(dst) => nets_contain(nets, dst),
                    None => false,
                },
        ),
        packets_by_destination(packets, nets, false) == packet_views(packets).filter(
            |p: Seq<u8>|
                !match packet_destination(p) {
                    Some(dst) => nets_contain(nets, dst),
                    None => false,
                },
        ),
    decreases packets.len(),
{
    let to_extra = |p: Seq<u8>|
        match packet_destination(p) {
            Some(dst) => nets_contain(nets, dst),
            None => false,
        };
    let to_main = |p: Seq<u8>|
        !match packet_destination(p) {
            Some(dst) => nets_contain(nets, dst),
            None => false,
        };
    if packets.len() == 0 {
        assert(packet_views(packets) =~= Seq::<Seq<u8>>::empty());
        reveal(Seq::filter);
        assert(packet_views(packets).filter(to_extra) =~= Seq::<Seq<u8>>::empty());
        assert(packet_views(packets).filter(to_main) =~= Seq::<Seq<u8>>::empty());
    } else {
        let init = packets.drop_last();
        let last = packets.last()@;
        lemma_split_by_destination(init, nets);
        assert(packet_views(packets) =~= packet_views(init).push(last));
        packet_views(init).lemma_filter_push(last, to_extra);
        packet_views(init).lemma_filter_push(last, to_main);
        assert(packets_by_destination(packets, nets, true) =~= packet_views(packets).filter(
            to_extra,
        ));
        assert(packets_by_destination(packets, nets, false) =~= packet_views(packets).filter(
            to_main,
        ));
    }
}

/// Splits packets read from the tun device into those for the main device
/// and those whose destination is an extra peer network, keeping their
/// order.
pub fn split_extra_peer_packets(packets: Vec<Vec<u8>>, nets: &[IpNet]) -> (r: (
    Vec<Vec<u8>>,
    Vec<Vec<u8>>,
))
    ensures
        packet_views(r.0@) == packets_by_destination(packets@, nets@, false),
        packet_views(r.1@) == packets_by_destination(packets@, nets@, true),
        packet_views(r.1@) == packet_views(packets@).filter(
            |p: Seq<u8>|
                match packet_destination(p) {
                    Some(dst) => nets_contain(nets@, dst),
                    None => false,
                },
        ),
        packet_views(r.0@) == packet_views(packets@).filter(
            |p: Seq<u8>|
                !match packet_destination(p) {
                    Some(dst) => nets_contain(nets@, dst),
                    None => false,
                },
        ),
{
    let mut main_packets: Vec<Vec<u8>> = Vec::new();
    let mut extra_packets: Vec<Vec<u8>> = Vec::new();
    let ghost all = packets@;
    for packet in it: packets.into_iter()
        invariant
            it.seq() == all,
            packet_views(main_packets@) == packets_by_destination(
                all.take(it.index() as int),
                nets@,
                false,
            ),
            packet_views(extra_packets@) == packets_by_destination(
                all.take(it.index() as int),
                nets@,
                true,
            ),
    {
        let ghost k = it.index();
        assert(all.take(k + 1).drop_last() =~= all.take(k as int));
        assert(all.take(k + 1).last() == packet);
        let ghost main_before = main_packets@;
        let ghost extra_before = extra_packets@;
        if is_extra_peer_dest(packet.as_slice(), nets) {
            extra_packets.push(packet);
            assert(packet_views(extra_packets@) =~= packet_views(extra_before).push(all[k as int]@));
        } else {
            main_packets.push(packet);
            assert(packet_views(main_packets@) =~= packet_views(main_before).push(all[k as int]@));
        }
        assert(packet_views(main_packets@) =~= packets_by_destination(all.take(k + 1), nets@, false));
        assert(packet_views(extra_packets@) =~= packets_by_destination(all.take(k + 1), nets@, true));
    }
    assert(all.take(all.len() as int) =~= all);
    proof {
        lemma_split_by_destination(all, nets@);
    }
    (main_packets, extra_packets)
}

} // verus!
