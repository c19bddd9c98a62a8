//! Relations between the operations, stated over the values their contracts
//! speak of.
use crate::reciprocal::reciprocal_value;
use crate::words::{ceil_div, lemma_wide_bases, limb_base, wrap, Uint256, Uint512};
use vstd::arithmetic::div_mod::*;
use vstd::arithmetic::power2::*;
use vstd::prelude::*;

verus! {

/// The floor quotient times the divisor, plus the remainder, gives back the
/// dividend, and the product does not exceed the dividend.
pub proof fn lemma_div_identity(a: Uint512, b: Uint512)
    requires
        b.value() > 0,
    ensures
        (a.value() / b.value()) * b.value() <= a.value(),
        (a.value() / b.value()) * b.value() + a.value() % b.value() == a.value(),
{
    lemma_fundamental_div_mod(a.value() as int, b.value() as int);
    lemma_mul_is_commutative_nat(a.value() / b.value(), b.value());
}

proof fn lemma_mul_is_commutative_nat(x: nat, y: nat)
    ensures
        x * y == y * x,
{
}

/// The ceiling quotient equals the floor quotient where the divisor divides
/// the dividend, and exceeds it by one otherwise.
pub proof fn lemma_ceil_relation(a: Uint512, b: Uint512)
    requires
        b.value() > 0,
    ensures
        a.value() % b.value() == 0 ==> ceil_div(a.value(), b.value()) == a.value() / b.value(),
        a.value() % b.value() != 0 ==> ceil_div(a.value(), b.value()) == a.value() / b.value()
            + 1,
{
    let x = a.value() as int;
    let y = b.value() as int;
    lemma_fundamental_div_mod(x, y);
    let q = x / y;
    let r = x % y;
    let c = (x + y - 1) / y;
    lemma_fundamental_div_mod(x + y - 1, y);
    let rc = (x + y - 1) % y;
    if r == 0 {
        assert(c == q) by (nonlinear_arith)
            requires
                x == y * q,
                x + y - 1 == y * c + rc,
                0 <= rc < y,
        ;
    } else {
        assert(c == q + 1) by (nonlinear_arith)
            requires
                x == y * q + r,
                0 < r < y,
                x + y - 1 == y * c + rc,
                0 <= rc < y,
        ;
    }
}

/// The full product of two 256-bit values does not depend on their order.
pub proof fn lemma_mul_full_commutes(a: Uint256, b: Uint256)
    ensures
        a.value() * b.value() == b.value() * a.value(),
{
}

/// The truncated product of two 512-bit values does not depend on their order.
pub proof fn lemma_mul_wide_commutes(a: Uint512, b: Uint512)
    ensures
        wrap((a.value() * b.value()) as int, 512) == wrap((b.value() * a.value()) as int, 512),
{
    lemma_mul_is_commutative_nat(a.value(), b.value());
}

/// Subtracting `b` from `a + b` gives back `a` where the sum does not wrap.
pub proof fn lemma_add_sub_inverse(a: Uint512, b: Uint512)
    requires
        a.value() + b.value() < pow2(512),
    ensures
        wrap(wrap((a.value() + b.value()) as int, 512) - b.value(), 512) == a.value(),
{
    let m = pow2(512) as int;
    lemma_pow2_pos(512);
    lemma_small_mod((a.value() + b.value()) as nat, m as nat);
    a.lemma_value_bound();
    lemma_small_mod(a.value(), m as nat);
}

/// For a divisor with its top bit set, the seed `r` satisfies
/// `(r + 2^256) * d <= 2^512 - 1 < (r + 2^256 + 1) * d`, and fits in 256 bits.
pub proof fn lemma_reciprocal_bound(d: Uint256)
    requires
        d.value() >= pow2(255),
    ensures
        0 <= reciprocal_value(512, d.value()) < limb_base(),
        (reciprocal_value(512, d.value()) + limb_base()) * d.value() <= pow2(512) - 1,
        pow2(512) - 1 < (reciprocal_value(512, d.value()) + limb_base() + 1) * d.value(),
{
    d.lemma_value_bound();
    lemma_pow2_pos(255);
    lemma_pow2_pos(512);
    lemma_wide_bases();
    lemma_pow2_adds(255, 1);
    lemma2_to64();
    let b = limb_base() as int;
    let dv = d.value() as int;
    let n = pow2(512) as int - 1;
    lemma_fundamental_div_mod(n, dv);
    let q = n / dv;
    let r = n % dv;
    assert(q >= b && q < 2 * b) by (nonlinear_arith)
        requires
            n == dv * q + r,
            0 <= r < dv,
            n + 1 == b * b,
            b == pow2(255) * 2,
            pow2(255) <= dv < b,
    ;
    assert(q * dv <= n < (q + 1) * dv) by (nonlinear_arith)
        requires
            n == dv * q + r,
            0 <= r < dv,
    ;
}

} // verus!
