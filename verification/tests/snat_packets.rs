use extra_peers::checksum::{fold_add, update_addr_in_checksum};
use extra_peers::net::{IpAddress, IpNet};
use extra_peers::packet::{
    is_ipv4_with_len, rewrite_ipv4_dst, rewrite_ipv4_src, update_transport_csum_v4,
};
use extra_peers::snat::{is_extra_peer_dest, snat_inbound, snat_outbound, SnatConfig, SnatTunDevice};

fn addr(a: u8, b: u8, c: u8, d: u8) -> u32 {
    u32::from_be_bytes([a, b, c, d])
}

/// Ones' complement sum of 16-bit big-endian words, folded.
fn ones_sum(bytes: &[u8]) -> u32 {
    let mut sum: u32 = 0;
    let mut i = 0;
    while i < bytes.len() {
        let hi = bytes[i] as u32;
        let lo = if i + 1 < bytes.len() { bytes[i + 1] as u32 } else { 0 };
        sum += (hi << 8) | lo;
        i += 2;
    }
    while sum > 0xffff {
        sum = (sum >> 16) + (sum & 0xffff);
    }
    sum
}

fn internet_checksum(bytes: &[u8]) -> u16 {
    !(ones_sum(bytes) as u16)
}

fn header_valid(packet: &[u8]) -> bool {
    let hl = ((packet[0] & 0x0f) as usize) * 4;
    ones_sum(&packet[..hl]) == 0xffff
}

/// The pseudo-header (source, destination, zero, protocol, length) and the segment.
fn transport_valid(packet: &[u8]) -> bool {
    let hl = ((packet[0] & 0x0f) as usize) * 4;
    let seg = &packet[hl..];
    let mut pseudo = Vec::new();
    pseudo.extend_from_slice(&packet[12..20]);
    pseudo.push(0);
    pseudo.push(packet[9]);
    pseudo.extend_from_slice(&(seg.len() as u16).to_be_bytes());
    pseudo.extend_from_slice(seg);
    ones_sum(&pseudo) == 0xffff
}

fn build_packet(protocol: u8, src: u32, dst: u32, payload: &[u8]) -> Vec<u8> {
    let (seg_len, csum_at) = match protocol {
        6 => (20 + payload.len(), 16),
        17 => (8 + payload.len(), 6),
        _ => (8 + payload.len(), 2),
    };
    let total = 20 + seg_len;
    let mut p = vec![0u8; total];
    p[0] = 0x45;
    p[2..4].copy_from_slice(&(total as u16).to_be_bytes());
    p[8] = 64;
    p[9] = protocol;
    p[12..16].copy_from_slice(&src.to_be_bytes());
    p[16..20].copy_from_slice(&dst.to_be_bytes());
    let seg_start = total - seg_len;
    p[seg_start..seg_start + 4].copy_from_slice(&[0x30, 0x39, 0x01, 0xbb]);
    if protocol == 17 {
        p[seg_start + 4..seg_start + 6].copy_from_slice(&(seg_len as u16).to_be_bytes());
    }
    if protocol == 6 {
        p[seg_start + 12] = 0x50;
    }
    let hdr_len = seg_len - payload.len();
    p[seg_start + hdr_len..].copy_from_slice(payload);
    // transport checksum
    let csum = if protocol == 6 || protocol == 17 {
        let mut pseudo = Vec::new();
        pseudo.extend_from_slice(&p[12..20]);
        pseudo.push(0);
        pseudo.push(protocol);
        pseudo.extend_from_slice(&(seg_len as u16).to_be_bytes());
        pseudo.extend_from_slice(&p[seg_start..]);
        internet_checksum(&pseudo)
    } else {
        internet_checksum(&p[seg_start..])
    };
    p[seg_start + csum_at..seg_start + csum_at + 2].copy_from_slice(&csum.to_be_bytes());
    let hcs = internet_checksum(&p[..20]);
    p[10..12].copy_from_slice(&hcs.to_be_bytes());
    p
}

fn net(a: u32, prefix: u8) -> IpNet {
    IpNet { ip: IpAddress::V4(a), prefix }
}

fn active_config() -> SnatConfig {
    SnatConfig {
        extra_addr_v4: Some(addr(10, 99, 0, 5)),
        primary_addr_v4: Some(addr(10, 64, 0, 2)),
        extra_peer_nets: vec![net(addr(192, 168, 50, 0), 24)],
    }
}

#[test]
fn fold_add_folds_the_carry_once() {
    assert_eq!(fold_add(0x1234, 0x0001), 0x1235);
    assert_eq!(fold_add(0xffff, 0x0001), 0x0001);
    assert_eq!(fold_add(0xffff, 0xffff), 0xffff);
    assert_eq!(fold_add(0, 0), 0);
    assert_eq!(fold_add(0x1_0000, 0x2345), 0x2346);
}

#[test]
fn incremental_update_matches_full_recomputation() {
    let old_src = addr(10, 64, 0, 2);
    let new_src = addr(10, 99, 0, 5);
    let p = build_packet(1, old_src, addr(192, 168, 50, 7), &[1, 2, 3, 4]);
    let old_csum = u16::from_be_bytes([p[10], p[11]]);
    let mut q = p.clone();
    q[12..16].copy_from_slice(&new_src.to_be_bytes());
    q[10] = 0;
    q[11] = 0;
    let full = internet_checksum(&q[..20]);
    assert_eq!(update_addr_in_checksum(old_csum, old_src, new_src), full);
}

#[test]
fn update_addr_exact_value() {
    // RFC 1624 example style: replacing an address with itself keeps the checksum.
    assert_eq!(update_addr_in_checksum(0x1234, 0x0a000001, 0x0a000001), 0x1234);
    // ~(~0x0000 + ~0x0000 + ~0x0000 + 0x0001 + 0x0000) = ~(0xffff*3 + 1 folded)
    assert_eq!(update_addr_in_checksum(0x0000, 0x0000_0000, 0x0001_0000), 0xfffe);
    assert_eq!(update_addr_in_checksum(0xb861, 0xc0a80001, 0xc0a800c7), 0xb79b);
}

#[test]
fn checksum_round_trip_restores() {
    for &c in &[0x0000u16, 0x1234, 0xfffe, 0x8000] {
        let a = addr(10, 64, 0, 2);
        let b = addr(10, 99, 0, 5);
        let once = update_addr_in_checksum(c, a, b);
        assert_eq!(update_addr_in_checksum(once, b, a), c);
    }
}

#[test]
fn is_ipv4_with_len_checks_version_and_length() {
    assert!(is_ipv4_with_len(&[0x45; 20], 20));
    assert!(!is_ipv4_with_len(&[0x45; 19], 20));
    assert!(!is_ipv4_with_len(&[0x60; 40], 20));
    assert!(is_ipv4_with_len(&[0x40], 1));
}

#[test]
fn outbound_rewrites_source_and_keeps_checksums_tcp() {
    let cfg = active_config();
    let p = build_packet(6, addr(10, 64, 0, 2), addr(192, 168, 50, 7), b"hello");
    assert!(header_valid(&p) && transport_valid(&p));
    let out = snat_outbound(p.clone(), &cfg);
    assert_eq!(&out[12..16], &[10, 99, 0, 5]);
    assert_eq!(&out[16..20], &p[16..20]);
    assert_eq!(out.len(), p.len());
    assert!(header_valid(&out));
    assert!(transport_valid(&out));
}

#[test]
fn outbound_keeps_checksums_udp() {
    let cfg = active_config();
    let p = build_packet(17, addr(10, 64, 0, 2), addr(192, 168, 50, 200), b"dns?");
    let out = snat_outbound(p, &cfg);
    assert_eq!(&out[12..16], &[10, 99, 0, 5]);
    assert!(header_valid(&out));
    assert!(transport_valid(&out));
}

#[test]
fn outbound_leaves_disabled_udp_checksum_zero() {
    let cfg = active_config();
    let mut p = build_packet(17, addr(10, 64, 0, 2), addr(192, 168, 50, 200), b"x");
    p[26] = 0;
    p[27] = 0;
    let out = snat_outbound(p, &cfg);
    assert_eq!(&out[26..28], &[0, 0]);
    assert!(header_valid(&out));
}

#[test]
fn outbound_icmp_only_header_checksum_changes() {
    let cfg = active_config();
    let p = build_packet(1, addr(10, 64, 0, 2), addr(192, 168, 50, 1), b"ping");
    let out = snat_outbound(p.clone(), &cfg);
    assert_eq!(&out[20..], &p[20..]);
    assert!(header_valid(&out));
}

#[test]
fn outbound_ignores_other_destinations() {
    let cfg = active_config();
    let p = build_packet(6, addr(10, 64, 0, 2), addr(8, 8, 8, 8), b"x");
    assert_eq!(snat_outbound(p.clone(), &cfg), p);
}

#[test]
fn outbound_keeps_packet_already_from_extra_address() {
    let cfg = active_config();
    let p = build_packet(6, addr(10, 99, 0, 5), addr(192, 168, 50, 7), b"x");
    assert_eq!(snat_outbound(p.clone(), &cfg), p);
}

#[test]
fn outbound_is_idempotent() {
    let cfg = active_config();
    let p = build_packet(6, addr(10, 64, 0, 2), addr(192, 168, 50, 7), b"again");
    let once = snat_outbound(p, &cfg);
    let twice = snat_outbound(once.clone(), &cfg);
    assert_eq!(once, twice);
}

#[test]
fn inactive_config_changes_nothing() {
    let mut cfg = active_config();
    cfg.extra_peer_nets.clear();
    let p = build_packet(6, addr(10, 64, 0, 2), addr(192, 168, 50, 7), b"x");
    assert_eq!(snat_outbound(p.clone(), &cfg), p);
    let q = build_packet(6, addr(192, 168, 50, 7), addr(10, 99, 0, 5), b"x");
    assert_eq!(snat_inbound(q.clone(), &cfg), q);
    let mut no_extra = active_config();
    no_extra.extra_addr_v4 = None;
    assert_eq!(snat_outbound(p.clone(), &no_extra), p);
}

#[test]
fn inbound_rewrites_destination_back() {
    let cfg = active_config();
    let p = build_packet(6, addr(192, 168, 50, 7), addr(10, 99, 0, 5), b"reply");
    let out = snat_inbound(p.clone(), &cfg);
    assert_eq!(&out[16..20], &[10, 64, 0, 2]);
    assert_eq!(&out[12..16], &p[12..16]);
    assert!(header_valid(&out));
    assert!(transport_valid(&out));
    // and once more it is left alone
    assert_eq!(snat_inbound(out.clone(), &cfg), out);
}

#[test]
fn inbound_ignores_other_destinations_and_short_packets() {
    let cfg = active_config();
    let p = build_packet(6, addr(192, 168, 50, 7), addr(10, 64, 0, 2), b"x");
    assert_eq!(snat_inbound(p.clone(), &cfg), p);
    let short = vec![0x45u8; 12];
    assert_eq!(snat_inbound(short.clone(), &cfg), short);
    let v6 = vec![0x60u8; 40];
    assert_eq!(snat_outbound(v6.clone(), &cfg), v6);
}

#[test]
fn rewrite_src_then_back_restores_packet() {
    let p = build_packet(17, addr(10, 64, 0, 2), addr(192, 168, 50, 3), b"abc");
    let mut q = p.clone();
    rewrite_ipv4_src(&mut q, addr(10, 64, 0, 2), addr(10, 99, 0, 5));
    assert_ne!(q, p);
    rewrite_ipv4_src(&mut q, addr(10, 99, 0, 5), addr(10, 64, 0, 2));
    assert_eq!(q, p);
}

#[test]
fn rewrite_dst_updates_both_checksums() {
    let mut p = build_packet(6, addr(1, 2, 3, 4), addr(5, 6, 7, 8), b"segment");
    rewrite_ipv4_dst(&mut p, addr(5, 6, 7, 8), addr(9, 10, 11, 12));
    assert_eq!(&p[16..20], &[9, 10, 11, 12]);
    assert!(header_valid(&p) && transport_valid(&p));
}

#[test]
fn transport_update_skips_short_and_other_protocols() {
    let mut short_tcp = vec![0u8; 17];
    update_transport_csum_v4(&mut short_tcp, 6, 1, 2);
    assert_eq!(short_tcp, vec![0u8; 17]);
    let mut icmp = vec![7u8; 30];
    update_transport_csum_v4(&mut icmp, 1, 1, 2);
    assert_eq!(icmp, vec![7u8; 30]);
    let mut udp = vec![0u8; 8];
    udp[6] = 0x12;
    update_transport_csum_v4(&mut udp, 17, 0, 0x0001_0000);
    assert_eq!(u16::from_be_bytes([udp[6], udp[7]]), 0x11ff);
}

#[test]
fn extra_peer_dest_reads_destination() {
    let nets = vec![net(addr(192, 168, 50, 0), 24), IpNet { ip: IpAddress::V6(0xfd00 << 112), prefix: 16 }];
    let p = build_packet(6, addr(10, 64, 0, 2), addr(192, 168, 50, 7), b"x");
    assert!(is_extra_peer_dest(&p, &nets));
    let q = build_packet(6, addr(10, 64, 0, 2), addr(192, 168, 51, 7), b"x");
    assert!(!is_extra_peer_dest(&q, &nets));
    let mut v6 = vec![0u8; 40];
    v6[0] = 0x60;
    v6[24] = 0xfd;
    v6[25] = 0x00;
    v6[39] = 1;
    assert!(is_extra_peer_dest(&v6, &nets));
    v6[24] = 0xfe;
    assert!(!is_extra_peer_dest(&v6, &nets));
    assert!(!is_extra_peer_dest(&v6[..30], &nets));
    assert!(!is_extra_peer_dest(&[], &nets));
}

#[test]
fn snat_device_applies_both_directions() {
    let dev = SnatTunDevice::new(7u32, active_config());
    assert_eq!(dev.inner, 7);
    let out = build_packet(6, addr(10, 64, 0, 2), addr(192, 168, 50, 7), b"x");
    let other = build_packet(6, addr(10, 64, 0, 2), addr(1, 1, 1, 1), b"x");
    let processed = dev.packets_received(vec![out.clone(), other.clone()]);
    assert_eq!(processed.len(), 2);
    assert_eq!(&processed[0][12..16], &[10, 99, 0, 5]);
    assert_eq!(processed[1], other);
    let reply = build_packet(6, addr(192, 168, 50, 7), addr(10, 99, 0, 5), b"x");
    assert_eq!(&dev.packet_to_send(reply)[16..20], &[10, 64, 0, 2]);
}

#[test]
fn inbound_is_idempotent_when_addresses_coincide() {
    let same = addr(10, 64, 0, 2);
    let cfg = SnatConfig {
        extra_addr_v4: Some(same),
        primary_addr_v4: Some(same),
        extra_peer_nets: vec![net(addr(192, 168, 50, 0), 24)],
    };
    let mut p = build_packet(17, addr(192, 168, 50, 7), same, b"x");
    // A header checksum of 0xffff becomes 0x0000 once, and then stays.
    p[10] = 0xff;
    p[11] = 0xff;
    let once = snat_inbound(p, &cfg);
    assert_eq!(&once[10..12], &[0, 0]);
    assert_eq!(snat_inbound(once.clone(), &cfg), once);
}
