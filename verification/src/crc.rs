//! CRC-32 over byte sequences: the ISO-HDLC polynomial in its standard
//! reflected form, seeded with `0xFFFF_FFFF` and finished by XOR with
//! `0xFFFF_FFFF`. This is the checksum the PNG chunk format prescribes.

use vstd::prelude::*;

verus! {

/// The reflected ISO-HDLC generator polynomial.
pub open spec fn spec_crc32_poly() -> u32 {
    0xEDB8_8320u32
}

/// One shift step of the reflected CRC register: shift right one bit and,
/// if a one bit fell out, fold the polynomial back in.
pub open spec fn spec_crc32_bit(c: u32) -> u32 {
    if c & 1 == 1 {
        (c >> 1) ^ spec_crc32_poly()
    } else {
        c >> 1
    }
}

/// The CRC register after `n` shift steps from `c`.
pub open spec fn spec_crc32_shifts(c: u32, n: nat) -> u32
    decreases n,
{
    if n == 0 {
        c
    } else {
        spec_crc32_bit(spec_crc32_shifts(c, (n - 1) as nat))
    }
}

/// The CRC register after absorbing one byte: XOR the byte into the low
/// register bits, then shift eight times.
pub open spec fn spec_crc32_byte(c: u32, b: u8) -> u32 {
    spec_crc32_shifts(c ^ (b as u32), 8)
}

/// The raw CRC register after absorbing every byte of `s` in order,
/// starting from the all-ones seed.
pub open spec fn spec_crc32_raw(s: Seq<u8>) -> u32
    decreases s.len(),
{
    if s.len() == 0 {
        0xFFFF_FFFFu32
    } else {
        spec_crc32_byte(spec_crc32_raw(s.drop_last()), s.last())
    }
}

/// The CRC-32 checksum of `s`: the raw register, complemented.
pub open spec fn spec_crc32(s: Seq<u8>) -> u32 {
    spec_crc32_raw(s) ^ 0xFFFF_FFFFu32
}

/// Absorbs one byte into the CRC register.
fn crc32_byte(c: u32, b: u8) -> (r: u32)
    ensures
        r == spec_crc32_byte(c, b),
{
    let x = c ^ (b as u32);
    let mut r = x;
    let mut k: usize = 0;
    while k < 8
        invariant
            k <= 8,
            r == spec_crc32_shifts(x, k as nat),
        decreases 8 - k,
    {
        r = if r & 1 == 1 {
            (r >> 1) ^ 0xEDB8_8320u32
        } else {
            r >> 1
        };
        k = k + 1;
    }
    r
}

/// Extending a sequence by one byte absorbs that byte into its raw CRC.
proof fn lemma_crc32_raw_push(s: Seq<u8>, b: u8)
    ensures
        spec_crc32_raw(s.push(b)) == spec_crc32_byte(spec_crc32_raw(s), b),
{
    assert(s.push(b).drop_last() =~= s);
    assert(s.push(b).last() == b);
}

/// Computes the raw CRC register over `bytes[start..end]`, continued from a
/// register `c` that already absorbed the bytes of `prefix`.
pub fn crc32_range(c: u32, bytes: &[u8], start: usize, end: usize, prefix: Ghost<Seq<u8>>) -> (r:
    u32)
    requires
        start <= end <= bytes@.len(),
        c == spec_crc32_raw(prefix@),
    ensures
        r == spec_crc32_raw(prefix@ + bytes@.subrange(start as int, end as int)),
{
    let mut r = c;
    let mut i: usize = start;
    while i < end
        invariant
            start <= i <= end <= bytes@.len(),
            r == spec_crc32_raw(prefix@ + bytes@.subrange(start as int, i as int)),
        decreases end - i,
    {
        let b = bytes[i];
        proof {
            assert((prefix@ + bytes@.subrange(start as int, i as int)).push(b) =~= prefix@
                + bytes@.subrange(start as int, i + 1));
            lemma_crc32_raw_push(prefix@ + bytes@.subrange(start as int, i as int), b);
        }
        r = crc32_byte(r, b);
        i = i + 1;
    }
    r
}

/// The CRC register after starting from `c` and absorbing every byte of `s`
/// in order.
pub open spec fn spec_crc32_raw_from(c: u32, s: Seq<u8>) -> u32
    decreases s.len(),
{
    if s.len() == 0 {
        c
    } else {
        spec_crc32_raw_from(spec_crc32_byte(c, s[0]), s.drop_first())
    }
}

/// One shift step never sends two registers to the same place: the top bit
/// of the result tells whether the polynomial was folded in, and the rest
/// recovers the shifted-out register.
proof fn lemma_crc32_bit_injective(c1: u32, c2: u32)
    requires
        spec_crc32_bit(c1) == spec_crc32_bit(c2),
    ensures
        c1 == c2,
{
    assert(c1 == c2) by (bit_vector)
        requires
            (if c1 & 1 == 1 {
                (c1 >> 1) ^ 0xEDB8_8320u32
            } else {
                c1 >> 1
            }) == (if c2 & 1 == 1 {
                (c2 >> 1) ^ 0xEDB8_8320u32
            } else {
                c2 >> 1
            }),
    ;
}

/// `n` shift steps never send two registers to the same place.
proof fn lemma_crc32_shifts_injective(c1: u32, c2: u32, n: nat)
    requires
        spec_crc32_shifts(c1, n) == spec_crc32_shifts(c2, n),
    ensures
        c1 == c2,
    decreases n,
{
    if n > 0 {
        lemma_crc32_bit_injective(
            spec_crc32_shifts(c1, (n - 1) as nat),
            spec_crc32_shifts(c2, (n - 1) as nat),
        );
        lemma_crc32_shifts_injective(c1, c2, (n - 1) as nat);
    }
}

/// Absorbing one byte never sends two registers to the same place.
proof fn lemma_crc32_byte_injective(c1: u32, c2: u32, b: u8)
    requires
        spec_crc32_byte(c1, b) == spec_crc32_byte(c2, b),
    ensures
        c1 == c2,
{
    lemma_crc32_shifts_injective(c1 ^ (b as u32), c2 ^ (b as u32), 8);
    assert(c1 == c2) by (bit_vector)
        requires
            c1 ^ (b as u32) == c2 ^ (b as u32),
    ;
}

/// Two different bytes drive one register to two different registers.
proof fn lemma_crc32_byte_distinct(c: u32, b1: u8, b2: u8)
    requires
        b1 != b2,
    ensures
        spec_crc32_byte(c, b1) != spec_crc32_byte(c, b2),
{
    if spec_crc32_byte(c, b1) == spec_crc32_byte(c, b2) {
        lemma_crc32_shifts_injective(c ^ (b1 as u32), c ^ (b2 as u32), 8);
        assert(b1 == b2) by (bit_vector)
            requires
                c ^ (b1 as u32) == c ^ (b2 as u32),
        ;
    }
}

/// Continuing a run by one byte absorbs that byte last.
proof fn lemma_raw_from_push(c: u32, s: Seq<u8>, b: u8)
    ensures
        spec_crc32_raw_from(c, s.push(b)) == spec_crc32_byte(spec_crc32_raw_from(c, s), b),
    decreases s.len(),
{
    if s.len() == 0 {
        assert(s.push(b)[0] == b);
        assert(s.push(b).drop_first() =~= Seq::<u8>::empty());
        assert(spec_crc32_raw_from(spec_crc32_byte(c, b), Seq::<u8>::empty()) == spec_crc32_byte(
            c,
            b,
        ));
        assert(spec_crc32_raw_from(c, Seq::<u8>::empty()) == c);
    } else {
        assert(s.push(b)[0] == s[0]);
        assert(s.push(b).drop_first() =~= s.drop_first().push(b));
        lemma_raw_from_push(spec_crc32_byte(c, s[0]), s.drop_first(), b);
        assert(spec_crc32_raw_from(c, s) == spec_crc32_raw_from(
            spec_crc32_byte(c, s[0]),
            s.drop_first(),
        ));
    }
}

/// The raw CRC of a concatenation continues the first part's register over
/// the second part.
proof fn lemma_raw_concat(a: Seq<u8>, y: Seq<u8>)
    ensures
        spec_crc32_raw(a + y) == spec_crc32_raw_from(spec_crc32_raw(a), y),
    decreases y.len(),
{
    if y.len() == 0 {
        assert(a + y =~= a);
    } else {
        let y2 = y.drop_last();
        lemma_raw_concat(a, y2);
        lemma_raw_from_push(spec_crc32_raw(a), y2, y.last());
        assert(y2.push(y.last()) =~= y);
        assert(a + y =~= (a + y2).push(y.last()));
        assert(((a + y2).push(y.last())).drop_last() =~= a + y2);
    }
}

/// Absorbing one common suffix keeps two distinct registers distinct.
proof fn lemma_raw_from_injective(r1: u32, r2: u32, s: Seq<u8>)
    requires
        r1 != r2,
    ensures
        spec_crc32_raw_from(r1, s) != spec_crc32_raw_from(r2, s),
    decreases s.len(),
{
    if s.len() > 0 {
        let n1 = spec_crc32_byte(r1, s[0]);
        let n2 = spec_crc32_byte(r2, s[0]);
        if n1 == n2 {
            lemma_crc32_byte_injective(r1, r2, s[0]);
        }
        lemma_raw_from_injective(n1, n2, s.drop_first());
    }
}

/// CRC-32 detects every single-byte error: two inputs that differ in exactly
/// one byte have different checksums.
pub proof fn lemma_crc32_single_byte_error(prefix: Seq<u8>, b1: u8, b2: u8, suffix: Seq<u8>)
    requires
        b1 != b2,
    ensures
        spec_crc32(prefix + seq![b1] + suffix) != spec_crc32(prefix + seq![b2] + suffix),
{
    let a1 = prefix + seq![b1];
    let a2 = prefix + seq![b2];
    assert(a1 =~= prefix.push(b1));
    assert(a2 =~= prefix.push(b2));
    lemma_crc32_raw_push(prefix, b1);
    lemma_crc32_raw_push(prefix, b2);
    lemma_crc32_byte_distinct(spec_crc32_raw(prefix), b1, b2);
    lemma_raw_concat(a1, suffix);
    lemma_raw_concat(a2, suffix);
    lemma_raw_from_injective(spec_crc32_raw(a1), spec_crc32_raw(a2), suffix);
    let x1 = spec_crc32_raw(a1 + suffix);
    let x2 = spec_crc32_raw(a2 + suffix);
    assert(x1 ^ 0xFFFF_FFFFu32 != x2 ^ 0xFFFF_FFFFu32) by (bit_vector)
        requires
            x1 != x2,
    ;
}

/// The CRC-32 checksum of a byte slice.
pub fn crc32(bytes: &[u8]) -> (r: u32)
    ensures
        r == spec_crc32(bytes@),
{
    let c = crc32_range(0xFFFF_FFFFu32, bytes, 0, bytes.len(), Ghost(Seq::empty()));
    proof {
        assert(Seq::<u8>::empty() + bytes@.subrange(0, bytes@.len() as int) =~= bytes@);
    }
    c ^ 0xFFFF_FFFFu32
}

} // verus!
