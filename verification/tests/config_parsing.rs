use extra_peers::config::{load, parse_conf, ConfErrorKind, PeerBuilder};
use extra_peers::net::{IpAddress, IpNet};
use extra_peers::peer::{PresharedKey, PublicKey};
use extra_peers::snat::SnatConfig;
use extra_peers::peer::InvalidKey;
use extra_peers::text::{chars_of, parse_u16, split, trim, IntErrorKind};

const KEY_A: &str = "AAECAwQFBgcICQoLDA0ODxAREhMUFRYXGBkaGxwdHh8=";
const KEY_B: &str = "ZGVmZ2hpamtsbW5vcHFyc3R1dnd4eXp7fH1+f4CBgoM=";

fn chars(s: &str) -> Vec<char> {
    s.chars().collect()
}

fn v4(a: u8, b: u8, c: u8, d: u8) -> IpAddress {
    IpAddress::V4(u32::from_be_bytes([a, b, c, d]))
}

fn sample() -> String {
    format!(
        "# extra peers\n\
         [Interface]\n\
         PrivateKey = ignored\n\
         Address = 10.99.0.5/32\n\
         address = fd00::5/128\n\
         DNS = 1.1.1.1\n\
         \n\
         [Peer]\n\
         PublicKey = {KEY_A}\n\
         AllowedIPs = 192.168.50.0/24, fd00::/16\n\
         Endpoint = peer.example.com:51820\n\
         PersistentKeepalive = 25\n\
         ; a comment\n\
         [peer]\r\n\
         publickey = {KEY_B}\r\n\
         PresharedKey = {KEY_A}\r\n\
         allowedips=10.10.0.0/16\r\n\
         endpoint = 203.0.113.9:51820\r\n\
         Unknown = whatever\r\n"
    )
}

#[test]
fn parses_interface_and_peers() {
    let parsed = parse_conf(&sample()).unwrap();
    assert_eq!(
        parsed.addresses,
        vec![
            IpNet { ip: v4(10, 99, 0, 5), prefix: 32 },
            IpNet { ip: IpAddress::V6(0xfd00_u128 << 112 | 5), prefix: 128 },
        ]
    );
    assert_eq!(parsed.peers.len(), 2);
    let a = &parsed.peers[0];
    assert_eq!(a.public_key.as_bytes(), (0u8..32).collect::<Vec<u8>>().as_slice());
    assert_eq!(
        a.allowed_ips,
        vec![
            IpNet { ip: v4(192, 168, 50, 0), prefix: 24 },
            IpNet { ip: IpAddress::V6(0xfd00_u128 << 112), prefix: 16 },
        ]
    );
    assert_eq!(a.endpoint, chars("peer.example.com:51820"));
    assert!(a.psk.is_none());
    assert_eq!(a.persistent_keepalive_secs, Some(25));
    assert_eq!(a.resolve_interval_secs, None);
    let b = &parsed.peers[1];
    assert_eq!(b.public_key.as_bytes(), (100u8..132).collect::<Vec<u8>>().as_slice());
    assert_eq!(b.psk.as_ref().unwrap().as_bytes(), (0u8..32).collect::<Vec<u8>>().as_slice());
    assert_eq!(b.allowed_ips, vec![IpNet { ip: v4(10, 10, 0, 0), prefix: 16 }]);
    assert_eq!(b.endpoint, chars("203.0.113.9:51820"));
    assert_eq!(b.persistent_keepalive_secs, None);
}

#[test]
fn empty_and_comment_only_text_is_empty() {
    let parsed = parse_conf("").unwrap();
    assert!(parsed.addresses.is_empty() && parsed.peers.is_empty());
    let parsed = parse_conf("# nothing\n; here\n\n   \n").unwrap();
    assert!(parsed.addresses.is_empty() && parsed.peers.is_empty());
}

#[test]
fn keys_outside_known_sections_are_ignored() {
    let parsed = parse_conf("Address = not an address\n[Other]\nAddress = nonsense\n").unwrap();
    assert!(parsed.addresses.is_empty());
}

#[test]
fn line_without_equals_is_an_error_with_its_line() {
    let err = parse_conf("[Interface]\n\nAddress 10.0.0.1\n").unwrap_err();
    assert_eq!(err.line, Some(3));
    assert!(matches!(err.kind, ConfErrorKind::ExpectedKeyValue));
}

#[test]
fn invalid_address_is_reported_with_value() {
    let err = parse_conf("[Interface]\nAddress = 10.0.0.300/24\n").unwrap_err();
    assert_eq!(err.line, Some(2));
    match err.kind {
        ConfErrorKind::InvalidAddress { value, detail } => {
            assert_eq!(value, chars("10.0.0.300/24"));
            assert!(!detail.is_empty());
        }
        other => panic!("unexpected {other:?}"),
    }
}

#[test]
fn invalid_allowed_ips_entry_is_reported_untrimmed() {
    let text = format!("[Peer]\nPublicKey = {KEY_A}\nAllowedIPs = 10.0.0.0/8, bogus\n");
    let err = parse_conf(&text).unwrap_err();
    assert_eq!(err.line, Some(3));
    match err.kind {
        ConfErrorKind::InvalidAllowedIps { part, detail } => {
            assert_eq!(part, chars(" bogus"));
            assert_eq!(detail, chars("invalid address: bogus"));
        }
        other => panic!("unexpected {other:?}"),
    }
}

#[test]
fn invalid_keys_and_keepalive_are_errors() {
    let err = parse_conf("[Peer]\nPublicKey = short\n").unwrap_err();
    assert_eq!(err.line, Some(2));
    assert!(matches!(err.kind, ConfErrorKind::InvalidPublicKey(InvalidKey::Format(_))));
    let err = parse_conf("[Peer]\nPresharedKey = AAAAAAAAAAAAAAAAAAAAAA==\n").unwrap_err();
    assert!(matches!(err.kind, ConfErrorKind::InvalidPresharedKey(InvalidKey::Length(16))));
    let err = parse_conf("[Peer]\nPersistentKeepalive = 65536\n").unwrap_err();
    assert!(matches!(err.kind, ConfErrorKind::InvalidPersistentKeepalive(IntErrorKind::PosOverflow)));
    let err = parse_conf("[Peer]\nPersistentKeepalive = -1\n").unwrap_err();
    assert!(matches!(err.kind, ConfErrorKind::InvalidPersistentKeepalive(IntErrorKind::InvalidDigit)));
    let err = parse_conf("[Peer]\nPersistentKeepalive =\n").unwrap_err();
    assert!(matches!(err.kind, ConfErrorKind::InvalidPersistentKeepalive(IntErrorKind::Empty)));
}

#[test]
fn incomplete_peer_at_header_has_header_line() {
    let text = format!("[Peer]\nPublicKey = {KEY_A}\nAllowedIPs = 10.0.0.0/8\n[Interface]\n");
    let err = parse_conf(&text).unwrap_err();
    assert_eq!(err.line, Some(4));
    assert!(matches!(err.kind, ConfErrorKind::MissingEndpoint));
}

#[test]
fn incomplete_peer_at_end_has_no_line() {
    let err = parse_conf("[Peer]\nEndpoint = a:1\n").unwrap_err();
    assert_eq!(err.line, None);
    assert!(matches!(err.kind, ConfErrorKind::MissingPublicKey));
    let text = format!("[Peer]\nPublicKey = {KEY_A}\nEndpoint = a:1\n");
    let err = parse_conf(&text).unwrap_err();
    assert_eq!(err.line, None);
    assert!(matches!(err.kind, ConfErrorKind::MissingAllowedIps));
}

#[test]
fn builder_set_and_build() {
    let mut b = PeerBuilder::default();
    b.set(&chars("ALLOWEDIPS"), &chars("1.2.3.4/32,5.6.7.0/24")).unwrap();
    assert_eq!(b.allowed_ips.len(), 2);
    assert!(matches!(b.set(&chars("persistentkeepalive"), &chars("+7")), Ok(())));
    assert_eq!(b.persistent_keepalive_secs, Some(7));
    assert!(b.set(&chars("Whatever"), &chars("x")).is_ok());
    assert!(matches!(b.build(), Err(ConfErrorKind::MissingPublicKey)));
}

#[test]
fn refused_set_keeps_builder() {
    let mut b = PeerBuilder::default();
    b.set(&chars("Endpoint"), &chars("h:1")).unwrap();
    b.set(&chars("PersistentKeepalive"), &chars("5")).unwrap();
    b.set(&chars("AllowedIPs"), &chars("1.1.1.0/24")).unwrap();
    assert!(b.set(&chars("PublicKey"), &chars("bad")).is_err());
    assert!(b.set(&chars("PresharedKey"), &chars("bad")).is_err());
    assert!(b.set(&chars("PersistentKeepalive"), &chars("70000")).is_err());
    assert!(b.public_key.is_none() && b.psk.is_none());
    assert_eq!(b.persistent_keepalive_secs, Some(5));
    assert_eq!(b.endpoint, Some(chars("h:1")));
    // Entries before the bad one stay appended.
    assert!(b.set(&chars("AllowedIPs"), &chars("10.0.0.0/24, bogus, 2.2.2.0/24")).is_err());
    assert_eq!(
        b.allowed_ips,
        vec![
            IpNet { ip: v4(1, 1, 1, 0), prefix: 24 },
            IpNet { ip: v4(10, 0, 0, 0), prefix: 24 },
        ]
    );
}

#[test]
fn load_with_lan_sharing_is_empty() {
    let text = sample();
    let cfg = load(true, Some(&text));
    assert!(cfg.addresses.is_empty() && cfg.peers.is_empty());
}

#[test]
fn load_without_file_or_with_bad_text_is_empty() {
    let cfg = load(false, None);
    assert!(cfg.addresses.is_empty() && cfg.peers.is_empty());
    let cfg = load(false, Some("[Interface]\nAddress = nope\n"));
    assert!(cfg.addresses.is_empty() && cfg.peers.is_empty());
}

#[test]
fn load_drops_default_route_peers() {
    let text = format!(
        "[Interface]\nAddress = 10.99.0.5/32\n\
         [Peer]\nPublicKey = {KEY_A}\nAllowedIPs = 0.0.0.0/0\nEndpoint = a:1\n\
         [Peer]\nPublicKey = {KEY_B}\nAllowedIPs = 192.168.50.0/24\nEndpoint = b:2\n"
    );
    let cfg = load(false, Some(&text));
    assert_eq!(cfg.addresses, vec![v4(10, 99, 0, 5)]);
    assert_eq!(cfg.peers.len(), 1);
    assert_eq!(cfg.peers[0].endpoint, chars("b:2"));
}

#[test]
fn snat_config_from_loaded_peers() {
    let text = sample();
    let loaded = load(false, Some(&text));
    let mut tunnel_addresses = vec![IpAddress::V6(1), v4(10, 64, 0, 2)];
    tunnel_addresses.extend(loaded.addresses.iter().copied());
    let cfg = SnatConfig::from_config(&tunnel_addresses, &loaded.peers);
    assert_eq!(cfg.primary_addr_v4, Some(u32::from_be_bytes([10, 64, 0, 2])));
    assert_eq!(cfg.extra_addr_v4, Some(u32::from_be_bytes([10, 99, 0, 5])));
    assert_eq!(
        cfg.extra_peer_nets,
        vec![
            IpNet { ip: v4(192, 168, 50, 0), prefix: 24 },
            IpNet { ip: v4(10, 10, 0, 0), prefix: 16 },
        ]
    );
    assert_eq!(cfg.active_addrs(), Some((u32::from_be_bytes([10, 99, 0, 5]), u32::from_be_bytes([10, 64, 0, 2]))));
    let only_primary = SnatConfig::from_config(&vec![v4(10, 64, 0, 2)], &loaded.peers);
    assert_eq!(only_primary.extra_addr_v4, None);
    assert_eq!(only_primary.active_addrs(), None);
}

#[test]
fn keys_need_exactly_32_bytes() {
    assert_eq!(PublicKey::from_base64(&chars(KEY_A)).unwrap().as_bytes().len(), 32);
    assert!(matches!(
        PublicKey::from_base64(&chars("AAAAAAAAAAAAAAAAAAAAAA==")),
        Err(InvalidKey::Length(16))
    ));
    match PublicKey::from_base64(&chars("not base64!")) {
        Err(InvalidKey::Format(text)) => assert!(!text.is_empty()),
        other => panic!("unexpected {other:?}"),
    }
    assert!(PresharedKey::from_base64(&chars(KEY_B)).is_ok());
}

#[test]
fn text_helpers() {
    assert_eq!(trim(&chars("\u{a0} a b\t\r")), chars("a b"));
    assert_eq!(trim(&chars("   ")), chars(""));
    let parts = split(&chars("a,,b"), ',');
    assert_eq!(parts, vec![chars("a"), chars(""), chars("b")]);
    assert_eq!(split(&chars(""), ','), vec![chars("")]);
    assert_eq!(parse_u16(&chars("007")), Ok(7));
    assert_eq!(parse_u16(&chars("+65535")), Ok(65535));
    assert_eq!(parse_u16(&chars("+")), Err(IntErrorKind::InvalidDigit));
    assert_eq!(parse_u16(&chars("")), Err(IntErrorKind::Empty));
    assert_eq!(parse_u16(&chars("1 ")), Err(IntErrorKind::InvalidDigit));
    assert_eq!(parse_u16(&chars("99999x")), Err(IntErrorKind::PosOverflow));
    assert_eq!(parse_u16(&chars("9x9999")), Err(IntErrorKind::InvalidDigit));
    // The same answers as std.
    for t in ["", "+", "-", "0", "+12", "-3", "65535", "65536", "99999x", "1x", "++1", "٣"] {
        let ours = parse_u16(&chars(t));
        let std_kind = t.parse::<u16>().map_err(|e| e.kind().clone());
        match (ours, std_kind) {
            (Ok(a), Ok(b)) => assert_eq!(a, b),
            (Err(IntErrorKind::Empty), Err(std::num::IntErrorKind::Empty)) => {}
            (Err(IntErrorKind::InvalidDigit), Err(std::num::IntErrorKind::InvalidDigit)) => {}
            (Err(IntErrorKind::PosOverflow), Err(std::num::IntErrorKind::PosOverflow)) => {}
            (a, b) => panic!("{t:?}: {a:?} vs {b:?}"),
        }
    }
    assert_eq!(chars_of("héllo"), chars("héllo"));
}
