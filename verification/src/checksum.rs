//! Ones' complement arithmetic of the Internet checksum (RFC 1071) and its
//! incremental update after a 32-bit address changes (RFC 1624).

use vstd::prelude::*;

verus! {

/// The modulus of ones' complement arithmetic on 16-bit words.
pub open spec fn ones_modulus() -> int {
    0xffff
}

/// `a` and `b` are the same number in ones' complement arithmetic.
pub open spec fn congruent(a: int, b: int) -> bool {
    (a - b) % ones_modulus() == 0
}

/// The 16-bit ones' complement sum of a nonnegative total `x`, as end-around
/// carry addition produces it: zero only for a zero total, otherwise the
/// value in `1..=0xffff` that is congruent to `x`.
pub open spec fn ones_sum(x: int) -> int {
    if x <= 0 {
        0
    } else {
        (x - 1) % ones_modulus() + 1
    }
}

/// High 16-bit word of an IPv4 address (its first two octets).
pub open spec fn addr_hi(addr: u32) -> int {
    addr as int / 0x10000
}

/// Low 16-bit word of an IPv4 address (its last two octets).
pub open spec fn addr_lo(addr: u32) -> int {
    addr as int % 0x10000
}

/// The sum of the two 16-bit words of an IPv4 address.
pub open spec fn addr_words(addr: u32) -> int {
    addr_hi(addr) + addr_lo(addr)
}

/// The checksum that RFC 1624 (eqn. 3) gives after the 32-bit address
/// `old_addr` covered by checksum `old_csum` is replaced by `new_addr`:
/// `HC' = ~(~HC + ~m + m')`, applied to both words of the address.
pub open spec fn replaced_checksum(old_csum: u16, old_addr: u32, new_addr: u32) -> int {
    0xffff - ones_sum(
        (0xffff - old_csum) + (0xffff - addr_hi(old_addr)) + (0xffff - addr_lo(old_addr))
            + addr_hi(new_addr) + addr_lo(new_addr),
    )
}

/// Two numbers that differ by a multiple of 0xffff are congruent.
pub proof fn lemma_congruent_intro(a: int, b: int, k: int)
    requires
        a - b == 65535 * k,
    ensures
        congruent(a, b),
{
    vstd::arithmetic::div_mod::lemma_mod_multiples_basic(k, 65535);
    assert(k * 65535 == 65535 * k) by (nonlinear_arith);
}

/// Congruent numbers differ by a multiple of 0xffff.
pub proof fn lemma_congruent_elim(a: int, b: int) -> (k: int)
    requires
        congruent(a, b),
    ensures
        a - b == 65535 * k,
{
    vstd::arithmetic::div_mod::lemma_fundamental_div_mod(a - b, 65535);
    (a - b) / 65535
}

proof fn lemma_ones_sum_bounds(x: int)
    ensures
        0 <= ones_sum(x) <= 0xffff,
        x > 0 ==> ones_sum(x) >= 1,
        x >= 0 ==> congruent(ones_sum(x), x),
{
    if x > 0 {
        assert(((x - 1) % 65535 + 1 - x) % 65535 == 0) by {
            vstd::arithmetic::div_mod::lemma_fundamental_div_mod(x - 1, 65535);
            let q = (x - 1) / 65535;
            assert((x - 1) % 65535 + 1 - x == -65535 * q);
            vstd::arithmetic::div_mod::lemma_mod_multiples_basic(-q, 65535);
        }
    } else if x == 0 {
    }
}

/// Adding `b` to an end-around carry sum of `x` gives that of `x + b`.
proof fn lemma_fold_step(x: int, b: int)
    requires
        x >= 0,
        0 <= b <= 0xffff,
    ensures
        ({
            let s = ones_sum(x) + b;
            s / 0x10000 + s % 0x10000 == ones_sum(x + b)
        }),
{
    lemma_ones_sum_bounds(x);
    let o = ones_sum(x);
    let s = o + b;
    if x + b == 0 {
    } else {
        // `s` and `x + b` are congruent, and the folded value lies in 1..=0xffff.
        let y = x + b;
        let f = s / 0x10000 + s % 0x10000;
        assert(s >= 1);
        assert(f >= 1 && f <= 0xffff && f - s == -65535 * (s / 0x10000)) by {
            assert(s <= 0x1fffe);
        }
        assert((f - y) % 65535 == 0) by {
            vstd::arithmetic::div_mod::lemma_fundamental_div_mod(x - 1, 65535);
            // o - x is a multiple of 65535 (or o = x = 0).
            let k: int = if x > 0 { -((x - 1) / 65535) } else { 0 };
            assert(o - x == 65535 * k);
            assert(f - y == 65535 * (k - s / 0x10000));
            vstd::arithmetic::div_mod::lemma_mod_multiples_basic(k - s / 0x10000, 65535);
        }
        // A value in 1..=0xffff that is congruent to y is (y - 1) % 65535 + 1.
        assert(f == (y - 1) % 65535 + 1) by {
            vstd::arithmetic::div_mod::lemma_fundamental_div_mod(f - y, 65535);
            vstd::arithmetic::div_mod::lemma_fundamental_div_mod(y - 1, 65535);
            let q = (f - y) / 65535;
            assert(f - y == 65535 * q);
            assert((y - 1) == 65535 * ((y - 1) / 65535) + (y - 1) % 65535);
            assert(0 <= (y - 1) % 65535 < 65535);
            // f - 1 = (y - 1) + 65535 q and 0 <= f - 1 < 65535.
            vstd::arithmetic::div_mod::lemma_fundamental_div_mod_converse(
                y - 1,
                65535,
                -q,
                f - 1,
            );
        }
    }
}

/// Ones' complement addition of two values, folding the carry out of the
/// low 16 bits back in once.
pub fn fold_add(a: u32, b: u32) -> (r: u32)
    requires
        a + b <= u32::MAX,
    ensures
        r == (a + b) / 0x10000 + (a + b) % 0x10000,
{
    let s = a + b;
    assert((s >> 16) == s / 0x10000 && (s & 0xffff) == s % 0x10000) by (bit_vector);
    (s >> 16) + (s & 0xffff)
}

/// RFC 1624 incremental checksum update after replacing a 32-bit IP address.
///
/// HC' = ~(~HC + ~m + m')  applied once per 16-bit word of the address.
pub fn update_addr_in_checksum(old_csum: u16, old_addr: u32, new_addr: u32) -> (r: u16)
    ensures
        r == replaced_checksum(old_csum, old_addr, new_addr),
{
    let old_hi = (old_addr / 0x10000) as u16;
    let old_lo = (old_addr % 0x10000) as u16;
    let new_hi = (new_addr / 0x10000) as u16;
    let new_lo = (new_addr % 0x10000) as u16;
    let not_csum = !old_csum;
    let not_hi = old_hi ^ 0xffff;
    let not_lo = old_lo ^ 0xffff;
    assert(not_csum == 0xffff - old_csum) by (bit_vector)
        requires
            not_csum == !old_csum,
    ;
    assert(not_hi == 0xffff - old_hi) by (bit_vector)
        requires
            not_hi == old_hi ^ 0xffff,
    ;
    assert(not_lo == 0xffff - old_lo) by (bit_vector)
        requires
            not_lo == old_lo ^ 0xffff,
    ;
    let ghost t0: int = 0xffff - old_csum;
    let mut sum: u32 = not_csum as u32;
    proof {
        lemma_ones_sum_bounds(t0);
        if t0 > 0 {
            assert(ones_sum(t0) == t0) by {
                vstd::arithmetic::div_mod::lemma_small_mod((t0 - 1) as nat, 65535);
            }
        }
    }
    let ghost t1: int = t0 + not_hi;
    proof { lemma_fold_step(t0, not_hi as int); lemma_ones_sum_bounds(t1); }
    sum = fold_add(sum, not_hi as u32);
    let ghost t2: int = t1 + not_lo;
    proof { lemma_fold_step(t1, not_lo as int); lemma_ones_sum_bounds(t2); }
    sum = fold_add(sum, not_lo as u32);
    let ghost t3: int = t2 + new_hi;
    proof { lemma_fold_step(t2, new_hi as int); lemma_ones_sum_bounds(t3); }
    sum = fold_add(sum, new_hi as u32);
    let ghost t4: int = t3 + new_lo;
    proof { lemma_fold_step(t3, new_lo as int); lemma_ones_sum_bounds(t4); }
    sum = fold_add(sum, new_lo as u32);
    assert(sum == ones_sum(t4));
    let folded = sum as u16;
    let r = !folded;
    assert(r == 0xffff - folded) by (bit_vector)
        requires
            r == !folded,
    ;
    r
}

/// The checksum produced by an address replacement compensates exactly for
/// the change of the address words: in ones' complement arithmetic the new
/// checksum plus the new address equals the old checksum plus the old address.
/// A packet whose checksummed words summed to zero before the replacement
/// still sums to zero after it.
pub proof fn lemma_replaced_checksum_compensates(old_csum: u16, old_addr: u32, new_addr: u32)
    ensures
        0 <= replaced_checksum(old_csum, old_addr, new_addr) <= 0xffff,
        congruent(
            replaced_checksum(old_csum, old_addr, new_addr) + addr_words(new_addr),
            old_csum + addr_words(old_addr),
        ),
{
    let s = (0xffff - old_csum) + (0xffff - addr_hi(old_addr)) + (0xffff - addr_lo(old_addr))
        + addr_hi(new_addr) + addr_lo(new_addr);
    assert(0 <= addr_hi(old_addr) <= 0xffff && 0 <= addr_lo(old_addr) <= 0xffff);
    lemma_ones_sum_bounds(s);
    let k = lemma_congruent_elim(ones_sum(s), s);
    lemma_congruent_intro(
        replaced_checksum(old_csum, old_addr, new_addr) + addr_words(new_addr),
        old_csum + addr_words(old_addr),
        -k - 2,
    );
}

/// Replacing an address and then replacing it back restores the checksum,
/// for every checksum but `0xffff` (the second zero of ones' complement,
/// which the round trip may turn into `0x0000`).
pub proof fn lemma_replaced_checksum_round_trip(old_csum: u16, a: u32, b: u32)
    requires
        old_csum != 0xffff,
    ensures
        replaced_checksum(replaced_checksum(old_csum, a, b) as u16, b, a) == old_csum,
{
    lemma_replaced_checksum_compensates(old_csum, a, b);
    let c1 = replaced_checksum(old_csum, a, b);
    lemma_replaced_checksum_compensates(c1 as u16, b, a);
    let c2 = replaced_checksum(c1 as u16, b, a);
    let k1 = lemma_congruent_elim(c1 + addr_words(b), old_csum + addr_words(a));
    let k2 = lemma_congruent_elim(c2 + addr_words(a), c1 + addr_words(b));
    // c2 - old_csum is a multiple of 0xffff.
    assert(c2 - old_csum == 65535 * (k1 + k2)) by (nonlinear_arith)
        requires
            c1 + addr_words(b) - (old_csum + addr_words(a)) == 65535 * k1,
            c2 + addr_words(a) - (c1 + addr_words(b)) == 65535 * k2,
    ;
    // The first replacement never yields 0xffff: that needs a zero ones' sum,
    // i.e. an old checksum of 0xffff.
    let s1 = (0xffff - old_csum) + (0xffff - addr_hi(a)) + (0xffff - addr_lo(a)) + addr_hi(b)
        + addr_lo(b);
    lemma_ones_sum_bounds(s1);
    assert(s1 > 0);
    assert(c1 < 0xffff);
    let s2 = (0xffff - c1) + (0xffff - addr_hi(b)) + (0xffff - addr_lo(b)) + addr_hi(a)
        + addr_lo(a);
    lemma_ones_sum_bounds(s2);
    assert(s2 > 0);
    assert(0 <= c2 < 0xffff);
    assert(k1 + k2 == 0) by (nonlinear_arith)
        requires
            c2 - old_csum == 65535 * (k1 + k2),
            0 <= c2 < 0xffff,
            0 <= old_csum < 0xffff,
    ;
}

/// Replacing an address by itself keeps every checksum but `0xffff`, which
/// becomes `0x0000`.
pub proof fn lemma_replaced_checksum_same_address(csum: u16, a: u32)
    ensures
        replaced_checksum(csum, a, a) == if csum == 0xffff {
            0
        } else {
            csum as int
        },
{
    let s = (0xffff - csum) + (0xffff - addr_hi(a)) + (0xffff - addr_lo(a)) + addr_hi(a) + addr_lo(a);
    assert(s == 3 * 0xffff - csum);
    if csum == 0xffff {
        assert((s - 1) % 65535 == 65534) by {
            vstd::arithmetic::div_mod::lemma_fundamental_div_mod_converse(s - 1, 65535, 1, 65534);
        }
    } else {
        assert((s - 1) % 65535 == 65534 - csum) by {
            vstd::arithmetic::div_mod::lemma_fundamental_div_mod_converse(
                s - 1,
                65535,
                2,
                65534 - csum,
            );
        }
    }
}

} // verus!
