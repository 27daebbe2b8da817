//! Decimal rendering of numbers as ASCII bytes, and the fact that ASCII
//! bytes always form valid UTF-8: what the human-readable chunk summary is
//! built from.

use vstd::prelude::*;
use vstd::utf8::is_leading_byte_width_1;
use vstd::utf8::partial_valid_utf8;
use vstd::utf8::partial_valid_utf8_extend_ascii_block;
use vstd::utf8::valid_utf8;

verus! {

/// The ASCII digits of `n` written in base ten, most significant first,
/// without leading zeroes (zero itself is the single digit `0`).
pub open spec fn spec_decimal(n: nat) -> Seq<u8>
    decreases n,
{
    if n < 10 {
        seq![(0x30 + n) as u8]
    } else {
        spec_decimal(n / 10).push((0x30 + n % 10) as u8)
    }
}

/// Every byte of a decimal rendering is an ASCII digit.
pub proof fn lemma_decimal_ascii(n: nat)
    ensures
        forall|i: int|
            0 <= i < spec_decimal(n).len() ==> 0x30 <= #[trigger] spec_decimal(n)[i] <= 0x39,
    decreases n,
{
    if n >= 10 {
        lemma_decimal_ascii(n / 10);
        let d = spec_decimal(n / 10);
        assert(n % 10 < 10) by (nonlinear_arith);
        assert forall|i: int|
            0 <= i < spec_decimal(n).len() implies 0x30 <= #[trigger] spec_decimal(n)[i]
            <= 0x39 by {
            if i < d.len() {
                assert(spec_decimal(n)[i] == d[i]);
            } else {
                assert(spec_decimal(n)[i] == (0x30 + n % 10) as u8);
            }
        }
    }
}

/// Appends the decimal digits of `x` to `out`.
pub fn push_decimal(out: &mut Vec<u8>, x: u32)
    ensures
        final(out)@ == old(out)@ + spec_decimal(x as nat),
    decreases x,
{
    if x < 10 {
        out.push(0x30 + (x as u8));
        assert(out@ =~= old(out)@ + spec_decimal(x as nat));
    } else {
        let q = x / 10;
        let r = x % 10;
        assert(q < x) by (nonlinear_arith)
            requires
                x >= 10,
                q == x / 10,
        ;
        push_decimal(out, q);
        out.push(0x30 + (r as u8));
        assert(out@ =~= old(out)@ + spec_decimal(x as nat));
    }
}

/// Relies on `String::from_utf8`: it succeeds exactly on valid UTF-8 input,
/// and the returned string's UTF-8 encoding is the input bytes.
#[verifier::external_body]
pub(crate) fn vec_to_utf8_string(v: Vec<u8>) -> (r: Option<String>)
    ensures
        match r {
            Some(s) => valid_utf8(v@) && vstd::utf8::encode_utf8(s@) == v@,
            None => !valid_utf8(v@),
        },
{
    String::from_utf8(v).ok()
}

/// A sequence of ASCII bytes is valid UTF-8.
pub proof fn lemma_ascii_bytes_valid_utf8(v: Seq<u8>)
    requires
        forall|i: int| 0 <= i < v.len() ==> #[trigger] v[i] <= 0x7F,
    ensures
        valid_utf8(v),
{
    assert(v.subrange(0, 0) =~= Seq::<u8>::empty());
    assert(valid_utf8(Seq::<u8>::empty()));
    assert(partial_valid_utf8(v, 0));
    assert(forall|i: int| 0 <= i < v.len() ==> is_leading_byte_width_1(#[trigger] v[i]));
    partial_valid_utf8_extend_ascii_block(v, 0, v.len() as int);
    assert(v.subrange(0, v.len() as int) =~= v);
}

} // verus!
