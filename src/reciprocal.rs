//! The reciprocal seed `floor((2^w - 1) / d) - 2^256` of a normalised divisor.
use crate::backend::{ruint_div_512, ruint_div_768, ruint_sub_512, ruint_sub_768};
use crate::ops::ArithError;
use crate::words::{lemma_wide_bases, limb_base, Uint256, Uint512, Uint768};
use vstd::arithmetic::div_mod::*;
use vstd::arithmetic::power2::*;
use vstd::prelude::*;

verus! {

/// `floor((2^width - 1) / d) - 2^256`.
pub open spec fn reciprocal_value(width: nat, d: nat) -> int {
    ((pow2(width) - 1) as nat / d) as int - limb_base() as int
}

/// A quotient `n / d` with `b * d <= n < 2 * b * d` lies in `[b, 2b)`.
proof fn lemma_quotient_in_octave(n: nat, d: nat, b: nat)
    requires
        d > 0,
        b * d <= n,
        n < 2 * b * d,
    ensures
        b <= n / d < 2 * b,
{
    lemma_fundamental_div_mod(n as int, d as int);
    let q = n / d;
    let r = n % d;
    assert(q >= b) by (nonlinear_arith)
        requires
            n == d * q + r,
            r < d,
            b * d <= n,
            d > 0,
    ;
    assert(q < 2 * b) by (nonlinear_arith)
        requires
            n == d * q + r,
            n < 2 * b * d,
            d > 0,
            r >= 0,
    ;
}

/// For `2^255 <= d < 2^256`, `floor((2^512 - 1) / d)` lies in `[2^256, 2^257)`.
proof fn lemma_quotient_512(d: nat)
    requires
        pow2(255) <= d < limb_base(),
    ensures
        limb_base() <= (pow2(512) - 1) as nat / d < 2 * limb_base(),
{
    lemma_wide_bases();
    lemma_pow2_adds(255, 1);
    lemma2_to64();
    lemma_pow2_pos(255);
    let b = limb_base();
    let h = pow2(255);
    let n = (pow2(512) - 1) as nat;
    lemma_pow2_pos(512);
    assert(n + 1 == b * b);
    assert(b * d <= n && n < 2 * b * d) by (nonlinear_arith)
        requires
            b == h * 2,
            h <= d < b,
            h > 0,
            n + 1 == b * b,
    ;
    lemma_quotient_in_octave(n, d, b);
}

/// For `2^511 <= d < 2^512`, `floor((2^768 - 1) / d)` lies in `[2^256, 2^257)`.
proof fn lemma_quotient_768(d: nat)
    requires
        pow2(511) <= d < pow2(512),
    ensures
        limb_base() <= (pow2(768) - 1) as nat / d < 2 * limb_base(),
{
    lemma_wide_bases();
    lemma_pow2_adds(511, 1);
    lemma_pow2_pos(256);
    lemma2_to64();
    lemma_pow2_strictly_increases(0, 256);
    let b = limb_base();
    let w = pow2(512);
    let h = pow2(511);
    let n = (pow2(768) - 1) as nat;
    lemma_pow2_pos(768);
    assert(n + 1 == w * b);
    assert(b * d <= n && n < 2 * b * d) by (nonlinear_arith)
        requires
            w == h * 2,
            h <= d < w,
            b > 1,
            n + 1 == w * b,
    ;
    lemma_quotient_in_octave(n, d, b);
}

/// The seed for a 256-bit divisor with its top bit set:
/// `floor((2^512 - 1) / d) - 2^256`, which always fits in 256 bits.
pub fn reciprocal(d: &Uint256) -> (r: Result<Uint256, ArithError>)
    ensures
        d.value() < pow2(255) <==> r == Err::<Uint256, ArithError>(ArithError::DivisorOutOfRange),
        d.value() >= pow2(255) ==> r is Ok,
        r matches Ok(x) ==> x.value() == reciprocal_value(512, d.value()),
{
    if !d.top_bit_set() {
        return Err(ArithError::DivisorOutOfRange);
    }
    let n = Uint512::max();
    let wd = Uint512::widen(*d);
    proof {
        d.lemma_value_bound();
        lemma_quotient_512(d.value());
        lemma_pow2_pos(255);
        lemma_pow2_strictly_increases(0, 256);
        lemma2_to64();
    }
    let q = Uint512::from_be_bytes(ruint_div_512(n.to_be_bytes(), wd.to_be_bytes()));
    let t = Uint512::from_be_bytes(
        ruint_sub_512(q.to_be_bytes(), Uint512::limb_weight().to_be_bytes()),
    );
    proof {
        lemma_wide_bases();
        let diff = q.value() - limb_base();
        assert(0 <= diff < limb_base());
        assert(limb_base() < pow2(512)) by (nonlinear_arith)
            requires
                pow2(512) == limb_base() * limb_base(),
                limb_base() > 1,
        ;
        lemma_small_mod(diff as nat, pow2(512));
    }
    match t.narrow() {
        Some(x) => Ok(x),
        None => Err(ArithError::NarrowingViolation),
    }
}

/// The seed for a 512-bit divisor whose high limb has its top bit set:
/// `floor((2^768 - 1) / d) - 2^256`, which always fits in 256 bits.
pub fn reciprocal2(d: &Uint512) -> (r: Result<Uint256, ArithError>)
    ensures
        d.high.value() < pow2(255) <==> r == Err::<Uint256, ArithError>(
            ArithError::DivisorOutOfRange,
        ),
        d.high.value() >= pow2(255) ==> r is Ok,
        r matches Ok(x) ==> x.value() == reciprocal_value(768, d.value()),
{
    if !d.high.top_bit_set() {
        return Err(ArithError::DivisorOutOfRange);
    }
    let n = Uint768::max();
    let wd = Uint768::widen(*d);
    proof {
        d.lemma_value_bound();
        lemma_wide_bases();
        lemma_pow2_adds(255, 256);
        let h = d.high.value();
        let l = d.low.value();
        let b = limb_base();
        assert(h * b + l >= pow2(255) * b) by (nonlinear_arith)
            requires
                h >= pow2(255),
        ;
        lemma_quotient_768(d.value());
        lemma_pow2_pos(511);
        lemma_pow2_strictly_increases(0, 256);
        lemma2_to64();
    }
    let q = Uint768::from_be_bytes(ruint_div_768(n.to_be_bytes(), wd.to_be_bytes()));
    let t = Uint768::from_be_bytes(
        ruint_sub_768(q.to_be_bytes(), Uint768::limb_weight().to_be_bytes()),
    );
    proof {
        let diff = q.value() - limb_base();
        assert(0 <= diff < limb_base());
        assert(limb_base() < pow2(768)) by (nonlinear_arith)
            requires
                pow2(768) == (limb_base() * limb_base()) * limb_base(),
                limb_base() > 1,
        ;
        lemma_small_mod(diff as nat, pow2(768));
    }
    match t.narrow() {
        Some(x) => Ok(x),
        None => Err(ArithError::NarrowingViolation),
    }
}

} // verus!
