//! The calls into ruint (through alloy-primitives) and alloy-sol-types.
//! Each takes and returns canonical big-endian byte arrays; the conversions
//! `from_be_bytes::<N>` / `to_be_bytes::<N>` are exact for `N` equal to the
//! type's byte width.
use crate::words::{be_value, ceil_div, wrap};
use vstd::arithmetic::power2::pow2;
use alloy_primitives::ruint::aliases::U768;
use alloy_primitives::{U256, U512};
use alloy_sol_types::SolValue;
use vstd::prelude::*;

verus! {

/// Relies on ruint's `Uint::wrapping_add` on `U512`: the sum modulo `2^512`.
#[verifier::external_body]
pub(crate) fn ruint_add_512(a: [u8; 64], b: [u8; 64]) -> (r: [u8; 64])
    ensures
        be_value(r@) == wrap((be_value(a@) + be_value(b@)) as int, 512),
{
    U512::from_be_bytes::<64>(a).wrapping_add(U512::from_be_bytes::<64>(b)).to_be_bytes::<64>()
}

/// Relies on ruint's `Uint::overflowing_add` on `U512`: its flag tells whether
/// the exact sum reaches `2^512`.
#[verifier::external_body]
pub(crate) fn ruint_add_overflows_512(a: [u8; 64], b: [u8; 64]) -> (r: bool)
    ensures
        r == (be_value(a@) + be_value(b@) >= pow2(512)),
{
    U512::from_be_bytes::<64>(a).overflowing_add(U512::from_be_bytes::<64>(b)).1
}

/// Relies on ruint's `Uint::overflowing_mul` on `U512`: its flag tells whether
/// the exact product reaches `2^512`.
#[verifier::external_body]
pub(crate) fn ruint_mul_overflows_512(a: [u8; 64], b: [u8; 64]) -> (r: bool)
    ensures
        r == (be_value(a@) * be_value(b@) >= pow2(512)),
{
    U512::from_be_bytes::<64>(a).overflowing_mul(U512::from_be_bytes::<64>(b)).1
}

/// Relies on ruint's `Uint::wrapping_sub` on `U512`: the difference modulo `2^512`.
#[verifier::external_body]
pub(crate) fn ruint_sub_512(a: [u8; 64], b: [u8; 64]) -> (r: [u8; 64])
    ensures
        be_value(r@) == wrap(be_value(a@) - be_value(b@), 512),
{
    U512::from_be_bytes::<64>(a).wrapping_sub(U512::from_be_bytes::<64>(b)).to_be_bytes::<64>()
}

/// Relies on ruint's `Uint::wrapping_mul` on `U512`: the product modulo `2^512`.
#[verifier::external_body]
pub(crate) fn ruint_mul_512(a: [u8; 64], b: [u8; 64]) -> (r: [u8; 64])
    ensures
        be_value(r@) == wrap((be_value(a@) * be_value(b@)) as int, 512),
{
    U512::from_be_bytes::<64>(a).wrapping_mul(U512::from_be_bytes::<64>(b)).to_be_bytes::<64>()
}

/// Relies on ruint's `Uint::wrapping_div` on `U512` (the `/` operator): the
/// quotient rounded down; it panics on a zero divisor.
#[verifier::external_body]
pub(crate) fn ruint_div_512(a: [u8; 64], b: [u8; 64]) -> (r: [u8; 64])
    requires
        be_value(b@) != 0,
    ensures
        be_value(r@) == be_value(a@) / be_value(b@),
{
    U512::from_be_bytes::<64>(a).wrapping_div(U512::from_be_bytes::<64>(b)).to_be_bytes::<64>()
}

/// Relies on ruint's `Uint::div_ceil` on `U512`: the quotient, plus one where
/// the remainder is not zero; it panics on a zero divisor.
#[verifier::external_body]
pub(crate) fn ruint_div_ceil_512(a: [u8; 64], b: [u8; 64]) -> (r: [u8; 64])
    requires
        be_value(b@) != 0,
    ensures
        be_value(r@) == ceil_div(be_value(a@), be_value(b@)),
{
    U512::from_be_bytes::<64>(a).div_ceil(U512::from_be_bytes::<64>(b)).to_be_bytes::<64>()
}

/// Relies on ruint's `Uint::wrapping_div` on `U768` (the `/` operator): the
/// quotient rounded down; it panics on a zero divisor.
#[verifier::external_body]
pub(crate) fn ruint_div_768(a: [u8; 96], b: [u8; 96]) -> (r: [u8; 96])
    requires
        be_value(b@) != 0,
    ensures
        be_value(r@) == be_value(a@) / be_value(b@),
{
    U768::from_be_bytes::<96>(a).wrapping_div(U768::from_be_bytes::<96>(b)).to_be_bytes::<96>()
}

/// Relies on ruint's `Uint::wrapping_sub` on `U768`: the difference modulo `2^768`.
#[verifier::external_body]
pub(crate) fn ruint_sub_768(a: [u8; 96], b: [u8; 96]) -> (r: [u8; 96])
    ensures
        be_value(r@) == wrap(be_value(a@) - be_value(b@), 768),
{
    U768::from_be_bytes::<96>(a).wrapping_sub(U768::from_be_bytes::<96>(b)).to_be_bytes::<96>()
}

/// Relies on alloy-sol-types' `SolValue::abi_encode_params` on a pair of
/// `uint256`: two static words, each 32 big-endian bytes, in order, with no
/// offset or length prefix.
#[verifier::external_body]
pub(crate) fn abi_encode_word_pair(first: [u8; 32], second: [u8; 32]) -> (r: Vec<u8>)
    ensures
        r@ == first@ + second@,
{
    (U256::from_be_bytes::<32>(first), U256::from_be_bytes::<32>(second)).abi_encode_params()
}

} // verus!
