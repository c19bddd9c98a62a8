//! Counting the leading zero bits of a 256-bit value.
use crate::words::{be_value, lemma_be_value_bound, lemma_be_value_concat, lemma_be_value_zero, Uint256};
use vstd::arithmetic::power2::*;
use vstd::prelude::*;
use vstd::std_specs::bits::{axiom_u8_leading_zeros, u8_leading_zeros};

verus! {

/// The number of leading zero bits of a value below `2^256`: the `r` with
/// `2^(255 - r) <= x < 2^(256 - r)`, and 256 for zero.
pub open spec fn is_leading_zeros(x: nat, r: nat) -> bool {
    r <= 256 && x < pow2((256 - r) as nat) && (r < 256 ==> pow2((255 - r) as nat) <= x)
}

/// Where a non-zero byte's leading one bit lies.
proof fn lemma_byte_leading_zeros(b: u8)
    requires
        b != 0,
    ensures
        u8_leading_zeros(b) < 8,
        pow2((7 - u8_leading_zeros(b)) as nat) <= b,
        b < pow2((8 - u8_leading_zeros(b)) as nat),
{
    axiom_u8_leading_zeros(b);
    lemma2_to64();
    let lz = u8_leading_zeros(b);
    if lz == 0 {
        assert((b >> 7u8) & 1u8 != 0u8 ==> b >= 128u8) by (bit_vector);
    } else if lz == 1 {
        assert(b >> 7u8 == 0u8 ==> b < 128u8) by (bit_vector);
        assert((b >> 6u8) & 1u8 != 0u8 ==> b >= 64u8) by (bit_vector);
    } else if lz == 2 {
        assert(b >> 6u8 == 0u8 ==> b < 64u8) by (bit_vector);
        assert((b >> 5u8) & 1u8 != 0u8 ==> b >= 32u8) by (bit_vector);
    } else if lz == 3 {
        assert(b >> 5u8 == 0u8 ==> b < 32u8) by (bit_vector);
        assert((b >> 4u8) & 1u8 != 0u8 ==> b >= 16u8) by (bit_vector);
    } else if lz == 4 {
        assert(b >> 4u8 == 0u8 ==> b < 16u8) by (bit_vector);
        assert((b >> 3u8) & 1u8 != 0u8 ==> b >= 8u8) by (bit_vector);
    } else if lz == 5 {
        assert(b >> 3u8 == 0u8 ==> b < 8u8) by (bit_vector);
        assert((b >> 2u8) & 1u8 != 0u8 ==> b >= 4u8) by (bit_vector);
    } else if lz == 6 {
        assert(b >> 2u8 == 0u8 ==> b < 4u8) by (bit_vector);
        assert((b >> 1u8) & 1u8 != 0u8 ==> b >= 2u8) by (bit_vector);
    } else {
        assert(b >> 1u8 == 0u8 ==> b < 2u8) by (bit_vector);
    }
}

/// With the first non-zero byte at `n`, the value lies between the powers of
/// two that that byte's leading zeros give.
proof fn lemma_first_nonzero_byte(s: Seq<u8>, n: int)
    requires
        s.len() == 32,
        0 <= n < 32,
        forall|j: int| 0 <= j < n ==> s[j] == 0,
        s[n] != 0,
    ensures
        is_leading_zeros(be_value(s), (8 * n + u8_leading_zeros(s[n])) as nat),
{
    let zeros = s.subrange(0, n);
    let head = s.subrange(n, n + 1);
    let rest = s.subrange(n + 1, 32);
    assert(s =~= zeros + (head + rest));
    lemma_be_value_concat(zeros, head + rest);
    lemma_be_value_zero(zeros);
    lemma_be_value_concat(head, rest);
    assert(head.drop_last().len() == 0);
    assert(be_value(head.drop_last()) == 0);
    assert(head.last() == s[n]);
    assert(be_value(head) == s[n] as nat);
    lemma_be_value_bound(rest);
    lemma_byte_leading_zeros(s[n]);
    let b = s[n] as nat;
    let lz = u8_leading_zeros(s[n]) as nat;
    let k = (8 * (31 - n)) as nat;
    let p = pow2(k);
    let v = be_value(rest);
    let lo = pow2((7 - lz) as nat);
    let hi = pow2((8 - lz) as nat);
    assert(be_value(s) == b * p + v);
    lemma_pow2_adds((7 - lz) as nat, k);
    lemma_pow2_adds((8 - lz) as nat, k);
    assert((7 - lz) as nat + k == (255 - (8 * n + lz)) as nat);
    assert((8 - lz) as nat + k == (256 - (8 * n + lz)) as nat);
    assert(lo * p <= b * p + v) by (nonlinear_arith)
        requires
            lo <= b,
    ;
    assert(b * p + v < hi * p) by (nonlinear_arith)
        requires
            b + 1 <= hi,
            v < p,
    ;
}

/// The number of leading zero bits of `x` in its 256-bit encoding: the first
/// non-zero byte is found, and the zero bits above its leading one are added.
pub fn leading_zeros(x: &Uint256) -> (r: u32)
    ensures
        is_leading_zeros(x.value(), r as nat),
{
    let mut n: usize = 0;
    while n < 32
        invariant
            0 <= n <= 32,
            forall|j: int| 0 <= j < n ==> x.bytes@[j] == 0,
        decreases 32 - n,
    {
        if x.bytes[n] != 0 {
            proof {
                lemma_first_nonzero_byte(x.bytes@, n as int);
            }
            return 8 * (n as u32) + x.bytes[n].leading_zeros();
        }
        n = n + 1;
    }
    proof {
        lemma_be_value_zero(x.bytes@);
        lemma2_to64();
        lemma_pow2_pos(255);
    }
    256
}

} // verus!
