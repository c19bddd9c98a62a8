//! Addition, subtraction, multiplication and division over 512 bits.
use crate::backend::{
    abi_encode_word_pair, ruint_add_512, ruint_add_overflows_512, ruint_div_512,
    ruint_div_ceil_512, ruint_mul_512, ruint_mul_overflows_512, ruint_sub_512,
};
use crate::words::{ceil_div, lemma_wide_bases, limb_base, wrap, Uint256, Uint512};
use vstd::arithmetic::div_mod::*;
use vstd::arithmetic::power2::*;
use vstd::prelude::*;

verus! {

/// Why an operation produced no value.
#[derive(Clone, Copy, Debug, PartialEq, Eq)]
pub enum ArithError {
    /// The divisor is zero.
    DivisionByZero,
    /// The exact result does not fit in the 256-bit output.
    NarrowingViolation,
    /// A reciprocal's divisor does not have its top bit set.
    DivisorOutOfRange,
}

/// `(a + b) mod 2^512`.
pub fn add_512(a: &Uint512, b: &Uint512) -> (r: Uint512)
    ensures
        r.value() == wrap((a.value() + b.value()) as int, 512),
{
    Uint512::from_be_bytes(ruint_add_512(a.to_be_bytes(), b.to_be_bytes()))
}

/// Whether `a + b` reaches `2^512`, that is whether `add_512` drops a carry.
pub fn add_512_overflows(a: &Uint512, b: &Uint512) -> (r: bool)
    ensures
        r == (a.value() + b.value() >= pow2(512)),
{
    ruint_add_overflows_512(a.to_be_bytes(), b.to_be_bytes())
}

/// `(a - b) mod 2^512`; the exact difference where `a >= b`.
pub fn sub_512(a: &Uint512, b: &Uint512) -> (r: Uint512)
    ensures
        r.value() == wrap(a.value() - b.value(), 512),
{
    Uint512::from_be_bytes(ruint_sub_512(a.to_be_bytes(), b.to_be_bytes()))
}

/// The exact product of two 256-bit values, which always fits in 512 bits.
pub fn mul_full(a: &Uint256, b: &Uint256) -> (r: Uint512)
    ensures
        r.value() == a.value() * b.value(),
{
    let wa = Uint512::widen(*a);
    let wb = Uint512::widen(*b);
    let r = Uint512::from_be_bytes(ruint_mul_512(wa.to_be_bytes(), wb.to_be_bytes()));
    proof {
        a.lemma_value_bound();
        b.lemma_value_bound();
        lemma_wide_bases();
        let x = a.value();
        let y = b.value();
        let m = limb_base();
        assert(x * y < m * m) by (nonlinear_arith)
            requires
                x < m,
                y < m,
        ;
        lemma_small_mod((x * y) as nat, pow2(512));
    }
    r
}

/// The low 512 bits of the product of two 512-bit values.
pub fn mul_wide(a: &Uint512, b: &Uint512) -> (r: Uint512)
    ensures
        r.value() == wrap((a.value() * b.value()) as int, 512),
{
    Uint512::from_be_bytes(ruint_mul_512(a.to_be_bytes(), b.to_be_bytes()))
}

/// Whether `a * b` reaches `2^512`, that is whether `mul_wide` drops high bits.
pub fn mul_wide_overflows(a: &Uint512, b: &Uint512) -> (r: bool)
    ensures
        r == (a.value() * b.value() >= pow2(512)),
{
    ruint_mul_overflows_512(a.to_be_bytes(), b.to_be_bytes())
}

/// `floor(a / b)`.
pub fn div_floor(a: &Uint512, b: &Uint512) -> (r: Result<Uint512, ArithError>)
    ensures
        b.value() == 0 <==> r == Err::<Uint512, ArithError>(ArithError::DivisionByZero),
        b.value() != 0 <==> r is Ok,
        r matches Ok(q) ==> q.value() == a.value() / b.value(),
{
    let bb = b.to_be_bytes();
    if b.is_zero() {
        return Err(ArithError::DivisionByZero);
    }
    Ok(Uint512::from_be_bytes(ruint_div_512(a.to_be_bytes(), bb)))
}

/// `ceil(a / b)`: the floor, plus one where `b` does not divide `a`.
pub fn div_ceil(a: &Uint512, b: &Uint512) -> (r: Result<Uint512, ArithError>)
    ensures
        b.value() == 0 <==> r == Err::<Uint512, ArithError>(ArithError::DivisionByZero),
        b.value() != 0 <==> r is Ok,
        r matches Ok(q) ==> b.value() != 0 && q.value() == ceil_div(a.value(), b.value()),
{
    let bb = b.to_be_bytes();
    if b.is_zero() {
        return Err(ArithError::DivisionByZero);
    }
    Ok(Uint512::from_be_bytes(ruint_div_ceil_512(a.to_be_bytes(), bb)))
}

/// `floor(a / b)` for a 256-bit divisor, narrowed to 256 bits.
pub fn div_narrow_256(a: &Uint512, b: &Uint256) -> (r: Result<Uint256, ArithError>)
    ensures
        b.value() == 0 <==> r == Err::<Uint256, ArithError>(ArithError::DivisionByZero),
        b.value() != 0 ==> (r == Err::<Uint256, ArithError>(ArithError::NarrowingViolation)
            <==> a.value() / b.value() >= limb_base()),
        b.value() != 0 && a.value() / b.value() < limb_base() ==> r is Ok,
        r matches Ok(q) ==> q.value() == a.value() / b.value(),
{
    div_narrow_512(a, &Uint512::widen(*b))
}

/// `floor(a / b)`, narrowed to 256 bits.
pub fn div_narrow_512(a: &Uint512, b: &Uint512) -> (r: Result<Uint256, ArithError>)
    ensures
        b.value() == 0 <==> r == Err::<Uint256, ArithError>(ArithError::DivisionByZero),
        b.value() != 0 ==> (r == Err::<Uint256, ArithError>(ArithError::NarrowingViolation)
            <==> a.value() / b.value() >= limb_base()),
        b.value() != 0 && a.value() / b.value() < limb_base() ==> r is Ok,
        r matches Ok(q) ==> q.value() == a.value() / b.value(),
{
    match div_floor(a, b) {
        Err(e) => Err(e),
        Ok(q) => match q.narrow() {
            Some(x) => Ok(x),
            None => Err(ArithError::NarrowingViolation),
        },
    }
}

/// The pair `(low limb, high limb)` as two consecutive 32-byte big-endian
/// words, the fixed-tuple form of the contract ABI.
pub fn abi_encode_limbs(x: &Uint512) -> (r: Vec<u8>)
    ensures
        r@ == x.low.bytes@ + x.high.bytes@,
{
    abi_encode_word_pair(x.low.to_be_bytes(), x.high.to_be_bytes())
}

} // verus!
