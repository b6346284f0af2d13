use extra_peers::manager::{
    resolve_interval_secs, select_endpoint, split_extra_peer_packets, to_gotatun_extra_peer,
    PeerAction, PeerEvent, PeerManagerState, StatsSample, DEFAULT_RESOLVE_INTERVAL_SECS,
};
use extra_peers::config::parse_conf;
use extra_peers::net::{IpAddress, IpNet, SocketAddress};

const KEY_A: &str = "AAECAwQFBgcICQoLDA0ODxAREhMUFRYXGBkaGxwdHh8=";

fn v6(port: u16) -> SocketAddress {
    SocketAddress::V6 { ip: 1, port, flowinfo: 0, scope_id: 0 }
}

fn v4(port: u16) -> SocketAddress {
    SocketAddress::V4 { ip: 0x7f000001, port }
}

fn peer(extra: &str) -> extra_peers::peer::ExtraPeerConfig {
    let text = format!("[Peer]\nPublicKey = {KEY_A}\nAllowedIPs = 10.0.0.0/8\nEndpoint = h:1\n{extra}");
    parse_conf(&text).unwrap().peers.pop().unwrap()
}

#[test]
fn endpoint_selection_prefers_ipv4() {
    assert_eq!(select_endpoint(&[v6(1), v4(2), v4(3)]), Some(v4(2)));
    assert_eq!(select_endpoint(&[v6(1), v6(2)]), Some(v6(1)));
    assert_eq!(select_endpoint(&[]), None);
}

#[test]
fn resolve_interval_defaults_when_unset_or_zero() {
    let mut p = peer("");
    assert_eq!(resolve_interval_secs(&p), DEFAULT_RESOLVE_INTERVAL_SECS);
    p.resolve_interval_secs = Some(0);
    assert_eq!(resolve_interval_secs(&p), 300);
    p.resolve_interval_secs = Some(42);
    assert_eq!(resolve_interval_secs(&p), 42);
}

#[test]
fn endpoint_update_only_when_changed_or_forced() {
    let mut st = PeerManagerState::new();
    assert!(st.endpoint_needs_update(v4(1), false));
    st.record_update(v4(1), false);
    assert!(st.endpoint_needs_update(v4(1), false));
    st.record_update(v4(1), true);
    assert!(!st.endpoint_needs_update(v4(1), false));
    assert!(st.endpoint_needs_update(v4(1), true));
    assert!(st.endpoint_needs_update(v4(2), false));
}

#[test]
fn stale_poll_forces_resolution() {
    let mut st = PeerManagerState::new();
    let minute = 60_000_000_000u128;
    // New packets, no handshake, cooldown elapsed.
    assert!(st.poll_stale(100, None, minute));
    assert_eq!(st.last_tx_bytes, 100);
    // No new packets.
    assert!(!st.poll_stale(100, None, minute));
    // Fresh handshake.
    assert!(!st.poll_stale(200, Some(5_000_000_000), minute));
    // Old handshake but cooldown not over.
    assert!(!st.poll_stale(300, Some(91_000_000_000), minute - 1));
    // Old handshake, cooldown over.
    assert!(st.poll_stale(400, Some(90_000_000_001), minute));
    // Exactly 90 s is not stale.
    assert!(!st.poll_stale(500, Some(90_000_000_000), minute));
}

#[test]
fn gotatun_peer_settings_drop_zero_keepalive() {
    let p = peer("PersistentKeepalive = 0\n");
    let s = to_gotatun_extra_peer(&p, None);
    assert_eq!(s.keepalive, None);
    assert_eq!(s.endpoint, None);
    assert_eq!(s.public_key, (0u8..32).collect::<Vec<u8>>());
    assert_eq!(s.allowed_ips, vec![IpNet { ip: IpAddress::V4(0x0a000000), prefix: 8 }]);
    let p = peer(&format!("PersistentKeepalive = 25\nPresharedKey = {KEY_A}\n"));
    let s = to_gotatun_extra_peer(&p, Some(v4(51820)));
    assert_eq!(s.keepalive, Some(25));
    assert_eq!(s.endpoint, Some(v4(51820)));
    assert_eq!(s.preshared_key, Some((0u8..32).collect::<Vec<u8>>()));
}

#[test]
fn packets_split_by_destination_in_order() {
    let nets = vec![IpNet { ip: IpAddress::V4(0xc0a83200), prefix: 24 }];
    let mk = |dst: [u8; 4], tag: u8| {
        let mut p = vec![0u8; 21];
        p[0] = 0x45;
        p[16..20].copy_from_slice(&dst);
        p[20] = tag;
        p
    };
    let a = mk([192, 168, 50, 1], 1);
    let b = mk([8, 8, 8, 8], 2);
    let c = mk([192, 168, 50, 9], 3);
    let d = vec![0x60u8; 10];
    let (main, extra) = split_extra_peer_packets(vec![a.clone(), b.clone(), c.clone(), d.clone()], &nets);
    assert_eq!(main, vec![b, d]);
    assert_eq!(extra, vec![a, c]);
}

#[test]
fn events_decide_resolutions() {
    let (mut st, first) = PeerManagerState::start();
    assert_eq!(first, PeerAction::Resolve { force_update: false, restart_cooldown: false });
    assert_eq!(
        st.on_event(PeerEvent::ResolveTick),
        PeerAction::Resolve { force_update: false, restart_cooldown: false }
    );
    assert_eq!(
        st.on_event(PeerEvent::RefreshRequested),
        PeerAction::Resolve { force_update: true, restart_cooldown: false }
    );
    let minute = 60_000_000_000u128;
    assert_eq!(
        st.on_event(PeerEvent::StalePoll { stats: None, since_forced_resolve_nanos: minute }),
        PeerAction::Nothing
    );
    let sample = StatsSample { tx_bytes: 10, handshake_age_nanos: None };
    assert_eq!(
        st.on_event(PeerEvent::StalePoll { stats: Some(sample), since_forced_resolve_nanos: minute }),
        PeerAction::Resolve { force_update: true, restart_cooldown: true }
    );
    assert_eq!(st.last_tx_bytes, 10);
    let sample = StatsSample { tx_bytes: 20, handshake_age_nanos: None };
    assert_eq!(
        st.on_event(PeerEvent::StalePoll { stats: Some(sample), since_forced_resolve_nanos: 1 }),
        PeerAction::Nothing
    );
    assert_eq!(st.last_tx_bytes, 20);
}
