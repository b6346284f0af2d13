//! Rewriting the source or destination address of an IPv4 packet in place,
//! with the incremental update of the IPv4 header checksum and of the TCP or
//! UDP checksum that covers the address through the pseudo-header.

use crate::checksum::{
    addr_hi, addr_lo, addr_words, congruent, lemma_congruent_elim, lemma_congruent_intro,
    lemma_replaced_checksum_compensates, replaced_checksum, update_addr_in_checksum,
};
use crate::net::be32;
use vstd::prelude::*;

verus! {

/// Big-endian value of the two bytes of `b` at `at`.
pub open spec fn be16(b: Seq<u8>, at: int) -> int {
    (b[at] as int) * 0x100 + (b[at + 1] as int)
}

/// `b` with the 16-bit value `v` written big-endian at `at`.
pub open spec fn put16(b: Seq<u8>, at: int, v: int) -> Seq<u8> {
    b.update(at, (v / 0x100) as u8).update(at + 1, (v % 0x100) as u8)
}

/// `b` with the IPv4 address `a` written big-endian at `at`.
pub open spec fn put32(b: Seq<u8>, at: int, a: u32) -> Seq<u8> {
    put16(put16(b, at, addr_hi(a)), at + 2, addr_lo(a))
}

/// The IPv4 header length in bytes, from the IHL field (low nibble of the
/// first byte, in 32-bit words).
pub open spec fn header_len(b: Seq<u8>) -> int {
    (b[0] % 16) as int * 4
}

/// Where in a transport segment the checksum lies that covers the IP
/// addresses: TCP (protocol 6) at offset 16 when the segment holds its
/// 18 first bytes; UDP (17) at offset 6 when it holds its 8-byte header and
/// the checksum is not zero (zero means no checksum in UDP over IPv4). Other
/// protocols, ICMP among them, have none.
pub open spec fn transport_checksum_offset(t: Seq<u8>, protocol: u8) -> Option<int> {
    if protocol == 6 && t.len() >= 18 {
        Some(16)
    } else if protocol == 17 && t.len() >= 8 && !(t[6] == 0 && t[7] == 0) {
        Some(6)
    } else {
        None
    }
}

/// The transport segment `t` after the address `old_addr` of its
/// pseudo-header became `new_addr`.
pub open spec fn transport_updated(t: Seq<u8>, protocol: u8, old_addr: u32, new_addr: u32) -> Seq<
    u8,
> {
    match transport_checksum_offset(t, protocol) {
        Some(o) => put16(t, o, replaced_checksum(be16(t, o) as u16, old_addr, new_addr)),
        None => t,
    }
}

/// The packet `b` after the address field at `at` (12: source, 16:
/// destination) is rewritten from `old_addr` to `new_addr`: the transport
/// checksum after the header is updated first, then the address is written
/// and the header checksum (bytes 10..12, as found after the transport update)
/// is updated.
pub open spec fn with_rewritten_address(b: Seq<u8>, at: int, old_addr: u32, new_addr: u32) -> Seq<u8> {
    let hl = header_len(b);
    let t = if b.len() > hl {
        b.subrange(0, hl) + transport_updated(b.subrange(hl, b.len() as int), b[9], old_addr, new_addr)
    } else {
        b
    };
    put16(put32(t, at, new_addr), 10, replaced_checksum(be16(t, 10) as u16, old_addr, new_addr))
}

/// The sum of the 16-bit big-endian words of `s`; an odd last byte counts as
/// the high byte of a word. The Internet checksum is the ones' complement of
/// this sum folded into 16 bits.
pub open spec fn word_sum(s: Seq<u8>) -> int
    decreases s.len(),
{
    if s.len() == 0 {
        0
    } else if s.len() == 1 {
        (s[0] as int) * 0x100
    } else {
        be16(s, 0) + word_sum(s.subrange(2, s.len() as int))
    }
}

/// Writing a word at an even offset changes the word sum by the difference
/// of the written and the overwritten word.
pub proof fn lemma_word_sum_put16(s: Seq<u8>, o: int, v: int)
    requires
        0 <= o,
        o % 2 == 0,
        o + 2 <= s.len(),
        0 <= v <= 0xffff,
    ensures
        put16(s, o, v).len() == s.len(),
        word_sum(put16(s, o, v)) == word_sum(s) - be16(s, o) + v,
    decreases o,
{
    let s2 = put16(s, o, v);
    if o == 0 {
        assert(s2.subrange(2, s2.len() as int) =~= s.subrange(2, s.len() as int));
        assert(be16(s2, 0) == v);
    } else {
        assert(s2.subrange(2, s2.len() as int) =~= put16(s.subrange(2, s.len() as int), o - 2, v));
        lemma_word_sum_put16(s.subrange(2, s.len() as int), o - 2, v);
        assert(be16(s.subrange(2, s.len() as int), o - 2) == be16(s, o));
    }
}

/// The four bytes of an address are its two words.
proof fn lemma_be32_words(b: Seq<u8>, at: int)
    requires
        0 <= at,
        at + 4 <= b.len(),
    ensures
        be32(b, at) == be16(b, at) * 0x10000 + be16(b, at + 2),
        be32(b, at) / 0x10000 == be16(b, at),
        be32(b, at) % 0x10000 == be16(b, at + 2),
{
    assert(be32(b, at) == be16(b, at) * 0x10000 + be16(b, at + 2));
    vstd::arithmetic::div_mod::lemma_fundamental_div_mod_converse(
        be32(b, at) as int,
        0x10000,
        be16(b, at),
        be16(b, at + 2),
    );
}

/// Rewriting an address keeps the word sum of a well-formed IPv4 header
/// (IHL of at least 5 words, header within the packet) in ones' complement
/// arithmetic, when the rewritten field held `old_addr`: a header whose
/// checksum verified before the rewrite verifies after it.
pub proof fn lemma_rewrite_keeps_header_sum(b: Seq<u8>, at: int, old_addr: u32, new_addr: u32)
    requires
        b.len() >= 20,
        20 <= header_len(b) <= b.len(),
        at == 12 || at == 16,
        be32(b, at) == old_addr,
    ensures
        with_rewritten_address(b, at, old_addr, new_addr).len() == b.len(),
        congruent(
            word_sum(with_rewritten_address(b, at, old_addr, new_addr).subrange(0, header_len(b))),
            word_sum(b.subrange(0, header_len(b))),
        ),
{
    let hl = header_len(b);
    let r = with_rewritten_address(b, at, old_addr, new_addr);
    let t = if b.len() > hl {
        b.subrange(0, hl) + transport_updated(b.subrange(hl, b.len() as int), b[9], old_addr, new_addr)
    } else {
        b
    };
    let h = b.subrange(0, hl);
    assert(t.subrange(0, hl) =~= h);
    assert(t.len() == b.len());
    let c = be16(t, 10);
    let c2 = replaced_checksum(c as u16, old_addr, new_addr);
    lemma_replaced_checksum_compensates(c as u16, old_addr, new_addr);
    let h1 = put16(h, at, addr_hi(new_addr));
    let h2 = put16(h1, at + 2, addr_lo(new_addr));
    let h3 = put16(h2, 10, c2);
    assert(r.subrange(0, hl) =~= h3);
    lemma_word_sum_put16(h, at, addr_hi(new_addr));
    lemma_word_sum_put16(h1, at + 2, addr_lo(new_addr));
    lemma_word_sum_put16(h2, 10, c2);
    lemma_be32_words(b, at);
    assert(be16(h, at) == addr_hi(old_addr));
    assert(be16(h1, at + 2) == addr_lo(old_addr));
    assert(be16(h2, 10) == c);
    let k = lemma_congruent_elim(c2 + addr_words(new_addr), c + addr_words(old_addr));
    lemma_congruent_intro(word_sum(h3), word_sum(h), k);
}

/// Rewriting an address keeps, in ones' complement arithmetic, the sum that
/// the TCP or UDP checksum verifies: the segment's words plus the address
/// words of the pseudo-header. A segment without such a checksum is left
/// as it was.
pub proof fn lemma_rewrite_keeps_transport_sum(b: Seq<u8>, at: int, old_addr: u32, new_addr: u32)
    requires
        b.len() >= 20,
        20 <= header_len(b) < b.len(),
        at == 12 || at == 16,
    ensures
        ({
            let hl = header_len(b);
            let seg = b.subrange(hl, b.len() as int);
            let seg2 = with_rewritten_address(b, at, old_addr, new_addr).subrange(hl, b.len() as int);
            match transport_checksum_offset(seg, b[9]) {
                Some(_) => congruent(
                    word_sum(seg2) + addr_words(new_addr),
                    word_sum(seg) + addr_words(old_addr),
                ),
                None => seg2 == seg,
            }
        }),
{
    let hl = header_len(b);
    let seg = b.subrange(hl, b.len() as int);
    let r = with_rewritten_address(b, at, old_addr, new_addr);
    let tu = transport_updated(seg, b[9], old_addr, new_addr);
    let t = b.subrange(0, hl) + tu;
    assert(r.subrange(hl, b.len() as int) =~= tu);
    match transport_checksum_offset(seg, b[9]) {
        Some(o) => {
            let c = be16(seg, o);
            let c2 = replaced_checksum(c as u16, old_addr, new_addr);
            lemma_replaced_checksum_compensates(c as u16, old_addr, new_addr);
            lemma_word_sum_put16(seg, o, c2);
            let k = lemma_congruent_elim(c2 + addr_words(new_addr), c + addr_words(old_addr));
            lemma_congruent_intro(
                word_sum(tu) + addr_words(new_addr),
                word_sum(seg) + addr_words(old_addr),
                k,
            );
        },
        None => {},
    }
}

/// After a rewrite the field at `at` holds the new address, the packet keeps
/// its length, and, in a well-formed header, every byte but the address, the
/// header checksum and the transport checksum is as it was.
pub proof fn lemma_rewrite_fields(b: Seq<u8>, at: int, old_addr: u32, new_addr: u32)
    requires
        b.len() >= 20,
        at == 12 || at == 16,
    ensures
        with_rewritten_address(b, at, old_addr, new_addr).len() == b.len(),
        with_rewritten_address(b, at, old_addr, new_addr)[0] == b[0],
        be32(with_rewritten_address(b, at, old_addr, new_addr), at) == new_addr,
        20 <= header_len(b) ==> forall|i: int|
            0 <= i < b.len() && !(10 <= i < 12) && !(at <= i < at + 4) && !(
            transport_checksum_offset(b.subrange(header_len(b), b.len() as int), b[9]) matches Some(o)
                && header_len(b) + o <= i < header_len(b) + o + 2)
                ==> #[trigger] with_rewritten_address(b, at, old_addr, new_addr)[i] == b[i],
{
    let hl = header_len(b);
    let r = with_rewritten_address(b, at, old_addr, new_addr);
    let t = if b.len() > hl {
        b.subrange(0, hl) + transport_updated(b.subrange(hl, b.len() as int), b[9], old_addr, new_addr)
    } else {
        b
    };
    assert(t.len() == b.len());
    if b.len() > hl {
        let seg = b.subrange(hl, b.len() as int);
        let tu = transport_updated(seg, b[9], old_addr, new_addr);
        assert(tu.len() == seg.len());
        assert(tu[0] == seg[0]);
        if hl == 0 {
            assert(t[0] == tu[0]);
        } else {
            assert(t[0] == b[0]);
        }
    }
    assert(t[0] == b[0]);
    let t1 = put16(t, at, addr_hi(new_addr));
    let t2 = put16(t1, at + 2, addr_lo(new_addr));
    assert(r[at] == t2[at] && r[at + 1] == t2[at + 1] && r[at + 2] == t2[at + 2] && r[at + 3]
        == t2[at + 3]);
    assert(be16(t2, at) == addr_hi(new_addr));
    assert(be16(t2, at + 2) == addr_lo(new_addr));
    assert(be32(r, at) == be16(t2, at) * 0x10000 + be16(t2, at + 2));
    assert(addr_hi(new_addr) * 0x10000 + addr_lo(new_addr) == new_addr);
}

/// Writing back the word that is already there changes nothing.
proof fn lemma_put16_same(b: Seq<u8>, at: int)
    requires
        0 <= at,
        at + 2 <= b.len(),
    ensures
        put16(b, at, be16(b, at)) == b,
{
    assert(put16(b, at, be16(b, at)) =~= b);
}

/// Writing an address that is already there changes nothing.
proof fn lemma_put32_same(b: Seq<u8>, at: int)
    requires
        0 <= at,
        at + 4 <= b.len(),
    ensures
        put32(b, at, be32(b, at) as u32) == b,
{
    lemma_be32_words(b, at);
    let a = be32(b, at) as u32;
    assert(addr_hi(a) == be16(b, at));
    assert(addr_lo(a) == be16(b, at + 2));
    lemma_put16_same(b, at);
    lemma_put16_same(b, at + 2);
}

/// The inputs on which rewriting an address from `a` to `c` and back
/// restores the packet: the header checksum and a transport checksum that
/// covers the address are not `0xffff` (ones' complement's second zero,
/// which the round trip turns into `0x0000`), and a UDP checksum does not
/// become `0x0000` on the way (which would read as "no checksum").
pub open spec fn round_trip_restores(b: Seq<u8>, a: u32, c: u32) -> bool {
    let hl = header_len(b);
    let seg = b.subrange(hl, b.len() as int);
    &&& be16(b, 10) != 0xffff
    &&& hl < b.len() ==> match transport_checksum_offset(seg, b[9]) {
        Some(o) => be16(seg, o) != 0xffff && (b[9] == 17 ==> replaced_checksum(
            be16(seg, o) as u16,
            a,
            c,
        ) != 0),
        None => true,
    }
}

/// A rewrite in a well-formed header is the rewritten header followed by the
/// updated transport segment.
proof fn lemma_rewrite_split(b: Seq<u8>, at: int, a: u32, c: u32)
    requires
        b.len() >= 20,
        20 <= header_len(b) <= b.len(),
        at == 12 || at == 16,
    ensures
        with_rewritten_address(b, at, a, c) == put16(
            put32(b.subrange(0, header_len(b)), at, c),
            10,
            replaced_checksum(be16(b, 10) as u16, a, c),
        ) + transport_updated(
            b.subrange(header_len(b), b.len() as int),
            b[9],
            a,
            c,
        ),
{
    let hl = header_len(b);
    let seg = b.subrange(hl, b.len() as int);
    if hl == b.len() {
        assert(seg =~= Seq::<u8>::empty());
        assert(transport_updated(seg, b[9], a, c) == seg);
        assert(b.subrange(0, hl) =~= b);
    }
    let t = if b.len() > hl {
        b.subrange(0, hl) + transport_updated(seg, b[9], a, c)
    } else {
        b
    };
    assert(t =~= b.subrange(0, hl) + transport_updated(seg, b[9], a, c));
    assert(with_rewritten_address(b, at, a, c) =~= put16(
        put32(b.subrange(0, hl), at, c),
        10,
        replaced_checksum(be16(b, 10) as u16, a, c),
    ) + transport_updated(seg, b[9], a, c));
}

/// Updating a transport checksum from `a` to `c` and back restores the
/// segment when its checksum is not `0xffff` and, for UDP, does not become
/// zero on the way.
proof fn lemma_transport_round_trip(seg: Seq<u8>, protocol: u8, a: u32, c: u32)
    requires
        transport_checksum_offset(seg, protocol) matches Some(o) ==> be16(seg, o) != 0xffff && (
        protocol == 17 ==> replaced_checksum(be16(seg, o) as u16, a, c) != 0),
    ensures
        transport_updated(transport_updated(seg, protocol, a, c), protocol, c, a) == seg,
{
    match transport_checksum_offset(seg, protocol) {
        Some(o) => {
            let x0 = be16(seg, o);
            let x1 = replaced_checksum(x0 as u16, a, c);
            crate::checksum::lemma_replaced_checksum_compensates(x0 as u16, a, c);
            crate::checksum::lemma_replaced_checksum_round_trip(x0 as u16, a, c);
            let seg1 = put16(seg, o, x1);
            assert(be16(seg1, o) == x1);
            assert(transport_checksum_offset(seg1, protocol) == Some(o));
            assert(put16(seg1, o, x0) =~= seg);
        },
        None => {},
    }
}

proof fn lemma_header_round_trip(hdr: Seq<u8>, at: int, a: u32, c: u32, h1: int)
    requires
        hdr.len() >= 20,
        at == 12 || at == 16,
        be32(hdr, at) == a,
        0 <= h1 <= 0xffff,
    ensures
        put16(put32(put16(put32(hdr, at, c), 10, h1), at, a), 10, be16(hdr, 10)) == hdr,
{
    lemma_be32_words(hdr, at);
    assert(addr_hi(a) == be16(hdr, at));
    assert(addr_lo(a) == be16(hdr, at + 2));
    assert(put16(put32(put16(put32(hdr, at, c), 10, h1), at, a), 10, be16(hdr, 10)) =~= hdr);
}

/// Rewriting the address at `at` from `a` to `c` and then back from `c` to
/// `a` gives back the packet, for a well-formed header that held `a` and the
/// checksums `round_trip_restores` admits.
pub proof fn lemma_rewrite_round_trip(b: Seq<u8>, at: int, a: u32, c: u32)
    requires
        b.len() >= 20,
        20 <= header_len(b) <= b.len(),
        at == 12 || at == 16,
        be32(b, at) == a,
        round_trip_restores(b, a, c),
    ensures
        with_rewritten_address(with_rewritten_address(b, at, a, c), at, c, a) == b,
{
    let hl = header_len(b);
    let hdr = b.subrange(0, hl);
    let seg = b.subrange(hl, b.len() as int);
    let h0 = be16(b, 10);
    let h1 = replaced_checksum(h0 as u16, a, c);
    crate::checksum::lemma_replaced_checksum_compensates(h0 as u16, a, c);
    crate::checksum::lemma_replaced_checksum_round_trip(h0 as u16, a, c);
    lemma_rewrite_split(b, at, a, c);
    let hdr1 = put16(put32(hdr, at, c), 10, h1);
    let seg1 = transport_updated(seg, b[9], a, c);
    let r1 = hdr1 + seg1;
    assert(r1.len() == b.len());
    assert(r1[0] == b[0] && r1[9] == b[9]);
    assert(r1.subrange(0, hl) =~= hdr1);
    assert(r1.subrange(hl, r1.len() as int) =~= seg1);
    assert(be16(r1, 10) == h1);
    lemma_rewrite_split(r1, at, c, a);
    if hl < b.len() {
        lemma_transport_round_trip(seg, b[9], a, c);
    } else {
        assert(seg =~= Seq::<u8>::empty());
    }
    assert(be32(hdr, at) == be32(b, at));
    assert(be16(hdr, 10) == h0);
    lemma_header_round_trip(hdr, at, a, c, h1);
    assert(hdr + seg =~= b);
}

/// Rewriting an address to itself twice is rewriting it once, in a
/// well-formed header that holds the address.
pub proof fn lemma_rewrite_same_address_twice(b: Seq<u8>, at: int, a: u32)
    requires
        b.len() >= 20,
        20 <= header_len(b),
        at == 12 || at == 16,
        be32(b, at) == a,
    ensures
        with_rewritten_address(with_rewritten_address(b, at, a, a), at, a, a)
            == with_rewritten_address(b, at, a, a),
{
    let hl = header_len(b);
    let r1 = with_rewritten_address(b, at, a, a);
    lemma_rewrite_fields(b, at, a, a);
    let h0 = be16(b, 10);
    crate::checksum::lemma_replaced_checksum_same_address(h0 as u16, a);
    let h1 = replaced_checksum(h0 as u16, a, a);
    crate::checksum::lemma_replaced_checksum_same_address(h1 as u16, a);
    if hl <= b.len() {
        let hdr = b.subrange(0, hl);
        let seg = b.subrange(hl, b.len() as int);
        lemma_rewrite_split(b, at, a, a);
        let hdr1 = put16(put32(hdr, at, a), 10, h1);
        let seg1 = transport_updated(seg, b[9], a, a);
        assert(r1 =~= hdr1 + seg1);
        assert(r1[0] == b[0] && r1[9] == b[9]);
        assert(r1.subrange(0, hl) =~= hdr1);
        assert(r1.subrange(hl, r1.len() as int) =~= seg1);
        assert(be16(r1, 10) == h1);
        lemma_rewrite_split(r1, at, a, a);
        match transport_checksum_offset(seg, b[9]) {
            Some(o) => {
                let x0 = be16(seg, o);
                crate::checksum::lemma_replaced_checksum_same_address(x0 as u16, a);
                let x1 = replaced_checksum(x0 as u16, a, a);
                crate::checksum::lemma_replaced_checksum_same_address(x1 as u16, a);
                assert(be16(seg1, o) == x1);
                if transport_checksum_offset(seg1, b[9]) is Some {
                    assert(transport_updated(seg1, b[9], a, a) =~= seg1);
                }
            },
            None => {},
        }
        assert(transport_updated(seg1, b[9], a, a) == seg1);
        lemma_be32_words(hdr1, at);
        lemma_put32_same(hdr1, at);
        assert(put32(hdr1, at, a) == hdr1);
        assert(put16(hdr1, 10, h1) =~= hdr1);
    } else {
        assert(r1 == put16(put32(b, at, a), 10, h1));
        assert(be16(r1, 10) == h1);
        lemma_put32_same(r1, at);
        assert(put16(r1, 10, h1) =~= r1);
    }
}

/// In a TCP segment (of at least 18 bytes) an address change rewrites
/// exactly the checksum at bytes 16..18, to its RFC 1624 update, and leaves
/// every other byte (ports, sequence numbers, flags, window, ...) as it was.
pub proof fn lemma_tcp_segment_update(t: Seq<u8>, old_addr: u32, new_addr: u32)
    requires
        t.len() >= 18,
    ensures
        transport_updated(t, 6, old_addr, new_addr).len() == t.len(),
        forall|i: int|
            0 <= i < t.len() && i != 16 && i != 17 ==> #[trigger] transport_updated(
                t,
                6,
                old_addr,
                new_addr,
            )[i] == t[i],
        transport_updated(t, 6, old_addr, new_addr)[16] as int * 0x100 + transport_updated(
            t,
            6,
            old_addr,
            new_addr,
        )[17] as int == replaced_checksum(
            (t[16] as int * 0x100 + t[17] as int) as u16,
            old_addr,
            new_addr,
        ),
{
    crate::checksum::lemma_replaced_checksum_compensates(be16(t, 16) as u16, old_addr, new_addr);
}

/// In a UDP segment with a checksum (at least 8 bytes, checksum field not
/// zero) an address change rewrites exactly the checksum at bytes 6..8, to
/// its RFC 1624 update; a zero checksum (none, in UDP over IPv4) is kept.
pub proof fn lemma_udp_segment_update(t: Seq<u8>, old_addr: u32, new_addr: u32)
    requires
        t.len() >= 8,
    ensures
        transport_updated(t, 17, old_addr, new_addr).len() == t.len(),
        t[6] == 0 && t[7] == 0 ==> transport_updated(t, 17, old_addr, new_addr) == t,
        !(t[6] == 0 && t[7] == 0) ==> {
            &&& forall|i: int|
                0 <= i < t.len() && i != 6 && i != 7 ==> #[trigger] transport_updated(
                    t,
                    17,
                    old_addr,
                    new_addr,
                )[i] == t[i]
            &&& transport_updated(t, 17, old_addr, new_addr)[6] as int * 0x100
                + transport_updated(t, 17, old_addr, new_addr)[7] as int == replaced_checksum(
                (t[6] as int * 0x100 + t[7] as int) as u16,
                old_addr,
                new_addr,
            )
        },
{
    crate::checksum::lemma_replaced_checksum_compensates(be16(t, 6) as u16, old_addr, new_addr);
}

/// Segments of other protocols (ICMP among them, whose checksum does not
/// cover the addresses) and TCP or UDP segments too short to hold their
/// checksum are left as they are.
pub proof fn lemma_other_segment_kept(t: Seq<u8>, protocol: u8, old_addr: u32, new_addr: u32)
    requires
        !(protocol == 6 && t.len() >= 18),
        !(protocol == 17 && t.len() >= 8),
    ensures
        transport_updated(t, protocol, old_addr, new_addr) == t,
{
}

fn read_be16(b: &Vec<u8>, at: usize) -> (r: u16)
    requires
        at + 1 < b.len(),
    ensures
        r == be16(b@, at as int),
{
    (b[at] as u16) * 256 + b[at + 1] as u16
}

fn write_be16(b: &mut Vec<u8>, at: usize, v: u16)
    requires
        at + 1 < old(b).len(),
    ensures
        final(b)@ == put16(old(b)@, at as int, v as int),
{
    b.set(at, (v / 256) as u8);
    b.set(at + 1, (v % 256) as u8);
}

pub(crate) fn read_be32(b: &Vec<u8>, at: usize) -> (r: u32)
    requires
        at + 3 < b.len(),
    ensures
        r == be32(b@, at as int),
{
    (b[at] as u32) * 0x1000000 + (b[at + 1] as u32) * 0x10000 + (b[at + 2] as u32) * 0x100
        + b[at + 3] as u32
}

fn write_be32(b: &mut Vec<u8>, at: usize, a: u32)
    requires
        at + 3 < old(b).len(),
    ensures
        final(b)@ == put32(old(b)@, at as int, a),
{
    write_be16(b, at, (a / 0x10000) as u16);
    write_be16(b, at + 2, (a % 0x10000) as u16);
}

/// `true` when `bytes` holds at least `min_len` bytes and its version nibble
/// is 4.
pub fn is_ipv4_with_len(bytes: &[u8], min_len: usize) -> (r: bool)
    requires
        min_len > 0 || bytes.len() > 0,
    ensures
        r == (bytes.len() >= min_len && bytes@[0] / 16 == 4),
{
    bytes.len() >= min_len && (bytes[0] / 16) == 4
}

/// Update TCP or UDP checksum after an IP address change.
/// ICMP is skipped because its checksum does not cover the IP pseudo-header.
pub fn update_transport_csum_v4(transport: &mut Vec<u8>, protocol: u8, old_addr: u32, new_addr: u32)
    ensures
        final(transport)@ == transport_updated(old(transport)@, protocol, old_addr, new_addr),
        final(transport)@.len() == old(transport)@.len(),
        // TCP: the checksum at bytes 16..18 is updated, nothing else changes.
        protocol == 6 && old(transport)@.len() >= 18 ==> {
            &&& forall|i: int|
                0 <= i < old(transport)@.len() && i != 16 && i != 17 ==> #[trigger] final(transport)@[i] == old(transport)@[i]
            &&& final(transport)@[16] as int * 0x100 + final(transport)@[17] as int
                == replaced_checksum(
                (old(transport)@[16] as int * 0x100 + old(transport)@[17] as int) as u16,
                old_addr,
                new_addr,
            )
        },
        // UDP with a checksum: the checksum at bytes 6..8 is updated, nothing
        // else changes.
        protocol == 17 && old(transport)@.len() >= 8 && !(old(transport)@[6] == 0
            && old(transport)@[7] == 0) ==> {
            &&& forall|i: int|
                0 <= i < old(transport)@.len() && i != 6 && i != 7 ==> #[trigger] final(transport)@[i] == old(transport)@[i]
            &&& final(transport)@[6] as int * 0x100 + final(transport)@[7] as int
                == replaced_checksum(
                (old(transport)@[6] as int * 0x100 + old(transport)@[7] as int) as u16,
                old_addr,
                new_addr,
            )
        },
        // Anything else (UDP without checksum, ICMP, short segments) is kept.
        !(protocol == 6 && old(transport)@.len() >= 18) && !(protocol == 17 && old(transport)@.len() >= 8 && !(old(transport)@[6] == 0 && old(transport)@[7] == 0))
            ==> final(transport)@ == old(transport)@,
{
    let csum_offset: usize = if protocol == 6 && transport.len() >= 18 {
        16
    } else if protocol == 17 && transport.len() >= 8 {
        if transport[6] == 0 && transport[7] == 0 {
            return;  // UDP checksum disabled (IPv4 allows this)
        }
        6
    } else {
        return ;
    };
    let old_csum = read_be16(transport, csum_offset);
    let new_csum = update_addr_in_checksum(old_csum, old_addr, new_addr);
    write_be16(transport, csum_offset, new_csum);
    proof {
        crate::checksum::lemma_replaced_checksum_compensates(old_csum, old_addr, new_addr);
    }
}

/// Rewrites the address at `at` and updates the IP and transport checksums.
fn rewrite_ipv4_addr(bytes: &mut Vec<u8>, at: usize, old_addr: u32, new_addr: u32)
    requires
        old(bytes).len() >= 20,
        at == 12 || at == 16,
    ensures
        final(bytes)@ == with_rewritten_address(old(bytes)@, at as int, old_addr, new_addr),
{
    let ghost b = bytes@;
    let ihl = (bytes[0] % 16) as usize * 4;
    let protocol = bytes[9];
    if bytes.len() > ihl {
        let mut transport = bytes.split_off(ihl);
        update_transport_csum_v4(&mut transport, protocol, old_addr, new_addr);
        bytes.append(&mut transport);
    }
    let ghost t = bytes@;
    assert(t =~= (if b.len() > ihl {
        b.subrange(0, ihl as int) + transport_updated(
            b.subrange(ihl as int, b.len() as int),
            b[9],
            old_addr,
            new_addr,
        )
    } else {
        b
    }));
    let old_csum = read_be16(bytes, 10);
    write_be32(bytes, at, new_addr);
    let new_csum = update_addr_in_checksum(old_csum, old_addr, new_addr);
    write_be16(bytes, 10, new_csum);
}

/// Rewrite src address and update IP + transport checksums.
pub fn rewrite_ipv4_src(bytes: &mut Vec<u8>, old_addr: u32, new_addr: u32)
    requires
        old(bytes).len() >= 20,
    ensures
        final(bytes)@ == with_rewritten_address(old(bytes)@, 12, old_addr, new_addr),
        final(bytes)@.len() == old(bytes)@.len(),
        be32(final(bytes)@, 12) == new_addr,
        // In a well-formed header, the header checksum gets its RFC 1624
        // update, the rest of the header is kept, and the segment after it
        // gets its transport checksum update.
        20 <= (old(bytes)@[0] % 16) as int * 4 <= old(bytes)@.len() ==> {
            let hl = (old(bytes)@[0] % 16) as int * 4;
            &&& final(bytes)@[10] as int * 0x100 + final(bytes)@[11] as int == replaced_checksum(
                (old(bytes)@[10] as int * 0x100 + old(bytes)@[11] as int) as u16,
                old_addr,
                new_addr,
            )
            &&& forall|i: int|
                0 <= i < hl && !(10 <= i < 12) && !(12 <= i < 16) ==> #[trigger] final(bytes)@[i]
                    == old(bytes)@[i]
            &&& final(bytes)@.subrange(hl, old(bytes)@.len() as int) == transport_updated(
                old(bytes)@.subrange(hl, old(bytes)@.len() as int),
                old(bytes)@[9],
                old_addr,
                new_addr,
            )
        },
{
    rewrite_ipv4_addr(bytes, 12, old_addr, new_addr);
    proof {
        lemma_rewrite_fields(old(bytes)@, 12, old_addr, new_addr);
        if 20 <= header_len(old(bytes)@) <= old(bytes)@.len() {
            lemma_rewrite_split(old(bytes)@, 12, old_addr, new_addr);
            let hl = header_len(old(bytes)@);
            crate::checksum::lemma_replaced_checksum_compensates(
                be16(old(bytes)@, 10) as u16,
                old_addr,
                new_addr,
            );
            assert(final(bytes)@.subrange(hl, old(bytes)@.len() as int) =~= transport_updated(
                old(bytes)@.subrange(hl, old(bytes)@.len() as int),
                old(bytes)@[9],
                old_addr,
                new_addr,
            ));
        }
    }
}

/// Rewrite dst address and update IP + transport checksums.
pub fn rewrite_ipv4_dst(bytes: &mut Vec<u8>, old_addr: u32, new_addr: u32)
    requires
        old(bytes).len() >= 20,
    ensures
        final(bytes)@ == with_rewritten_address(old(bytes)@, 16, old_addr, new_addr),
        final(bytes)@.len() == old(bytes)@.len(),
        be32(final(bytes)@, 16) == new_addr,
        // In a well-formed header, the header checksum gets its RFC 1624
        // update, the rest of the header is kept, and the segment after it
        // gets its transport checksum update.
        20 <= (old(bytes)@[0] % 16) as int * 4 <= old(bytes)@.len() ==> {
            let hl = (old(bytes)@[0] % 16) as int * 4;
            &&& final(bytes)@[10] as int * 0x100 + final(bytes)@[11] as int == replaced_checksum(
                (old(bytes)@[10] as int * 0x100 + old(bytes)@[11] as int) as u16,
                old_addr,
                new_addr,
            )
            &&& forall|i: int|
                0 <= i < hl && !(10 <= i < 12) && !(16 <= i < 20) ==> #[trigger] final(bytes)@[i]
                    == old(bytes)@[i]
            &&& final(bytes)@.subrange(hl, old(bytes)@.len() as int) == transport_updated(
                old(bytes)@.subrange(hl, old(bytes)@.len() as int),
                old(bytes)@[9],
                old_addr,
                new_addr,
            )
        },
{
    rewrite_ipv4_addr(bytes, 16, old_addr, new_addr);
    proof {
        lemma_rewrite_fields(old(bytes)@, 16, old_addr, new_addr);
        if 20 <= header_len(old(bytes)@) <= old(bytes)@.len() {
            lemma_rewrite_split(old(bytes)@, 16, old_addr, new_addr);
            let hl = header_len(old(bytes)@);
            crate::checksum::lemma_replaced_checksum_compensates(
                be16(old(bytes)@, 10) as u16,
                old_addr,
                new_addr,
            );
            assert(final(bytes)@.subrange(hl, old(bytes)@.len() as int) =~= transport_updated(
                old(bytes)@.subrange(hl, old(bytes)@.len() as int),
                old(bytes)@[9],
                old_addr,
                new_addr,
            ));
        }
    }
}

} // verus!
