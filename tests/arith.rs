use hugeuint::clz::leading_zeros;
use hugeuint::ops::{
    abi_encode_limbs, add_512, add_512_overflows, div_ceil, div_floor, div_narrow_256,
    div_narrow_512, mul_full, mul_wide, mul_wide_overflows, sub_512, ArithError,
};
use hugeuint::reciprocal::{reciprocal, reciprocal2};
use hugeuint::words::{Uint256, Uint512, Uint768};

fn w256(x: u128) -> Uint256 {
    let mut bytes = [0u8; 32];
    bytes[16..].copy_from_slice(&x.to_be_bytes());
    Uint256::from_be_bytes(bytes)
}

fn w512(x: u128) -> Uint512 {
    Uint512 { high: w256(0), low: w256(x) }
}

fn pow2_256(bit: usize) -> Uint256 {
    let mut bytes = [0u8; 32];
    bytes[31 - bit / 8] = 1u8 << (bit % 8);
    Uint256::from_be_bytes(bytes)
}

fn pow2_512(bit: usize) -> Uint512 {
    if bit >= 256 {
        Uint512 { high: pow2_256(bit - 256), low: w256(0) }
    } else {
        Uint512 { high: w256(0), low: pow2_256(bit) }
    }
}

fn ones_256() -> Uint256 {
    Uint256::from_be_bytes([0xffu8; 32])
}

fn ones_512() -> Uint512 {
    Uint512 { high: ones_256(), low: ones_256() }
}

#[test]
fn add_one_and_one_gives_two() {
    let r = add_512(&w512(1), &w512(1));
    assert_eq!(r, w512(2));
    let mut expected = vec![0u8; 64];
    expected[31] = 2;
    assert_eq!(abi_encode_limbs(&r), expected);
}

#[test]
fn add_carries_into_high_limb() {
    let a = Uint512 { high: w256(0), low: ones_256() };
    assert_eq!(add_512(&a, &w512(1)), pow2_512(256));
}

#[test]
fn add_drops_carry_out_of_512_bits() {
    assert_eq!(add_512(&ones_512(), &w512(1)), w512(0));
}

#[test]
fn sub_exact_and_wrapping() {
    assert_eq!(sub_512(&w512(10), &w512(3)), w512(7));
    assert_eq!(sub_512(&pow2_512(256), &w512(1)), Uint512 { high: w256(0), low: ones_256() });
    assert_eq!(sub_512(&w512(0), &w512(1)), ones_512());
}

#[test]
fn sub_undoes_add() {
    let a = Uint512 { high: w256(12345), low: w256(u128::MAX) };
    let b = Uint512 { high: w256(7), low: w256(99) };
    assert_eq!(sub_512(&add_512(&a, &b), &b), a);
}

#[test]
fn mul_full_of_largest_limbs() {
    let r = mul_full(&ones_256(), &ones_256());
    let mut high = [0xffu8; 32];
    high[31] = 0xfe;
    assert_eq!(r, Uint512 { high: Uint256::from_be_bytes(high), low: w256(1) });
}

#[test]
fn mul_full_commutes_and_is_exact() {
    let a = w256(u128::MAX);
    let b = pow2_256(200);
    let r = mul_full(&a, &b);
    assert_eq!(r, mul_full(&b, &a));
    assert_eq!(mul_full(&w256(6), &w256(7)), w512(42));
}

#[test]
fn mul_wide_truncates_and_commutes() {
    assert_eq!(mul_wide(&pow2_512(256), &pow2_512(256)), w512(0));
    assert_eq!(mul_wide(&pow2_512(300), &w512(4)), pow2_512(302));
    let a = Uint512 { high: w256(3), low: w256(u128::MAX) };
    let b = Uint512 { high: w256(0), low: w256(1u128 << 100) };
    assert_eq!(mul_wide(&a, &b), mul_wide(&b, &a));
}

#[test]
fn div_ten_by_three() {
    assert_eq!(div_floor(&w512(10), &w512(3)), Ok(w512(3)));
    assert_eq!(div_ceil(&w512(10), &w512(3)), Ok(w512(4)));
}

#[test]
fn div_ceil_of_exact_multiple() {
    assert_eq!(div_ceil(&w512(9), &w512(3)), Ok(w512(3)));
    assert_eq!(div_floor(&w512(9), &w512(3)), Ok(w512(3)));
}

#[test]
fn div_floor_identity_holds_on_sample() {
    let q = div_floor(&w512(1000), &w512(7)).unwrap();
    assert_eq!(q, w512(142));
    assert_eq!(add_512(&mul_wide(&q, &w512(7)), &w512(6)), w512(1000));
}

#[test]
fn division_by_zero_is_reported() {
    assert_eq!(div_floor(&w512(5), &w512(0)), Err(ArithError::DivisionByZero));
    assert_eq!(div_ceil(&w512(5), &w512(0)), Err(ArithError::DivisionByZero));
    assert_eq!(div_narrow_256(&w512(5), &w256(0)), Err(ArithError::DivisionByZero));
    assert_eq!(div_narrow_512(&w512(5), &w512(0)), Err(ArithError::DivisionByZero));
}

#[test]
fn div_narrow_256_of_two_to_the_256_by_two() {
    assert_eq!(div_narrow_256(&pow2_512(256), &w256(2)), Ok(pow2_256(255)));
}

#[test]
fn div_narrow_512_sample() {
    let a = ones_512();
    let b = pow2_512(300);
    let mut expected = [0u8; 32];
    for byte in expected.iter_mut().skip(32 - 27) {
        *byte = 0xff;
    }
    expected[32 - 27] = 0x0f;
    assert_eq!(div_narrow_512(&a, &b), Ok(Uint256::from_be_bytes(expected)));
}

#[test]
fn narrowing_violation_is_reported() {
    assert_eq!(div_narrow_256(&pow2_512(256), &w256(1)), Err(ArithError::NarrowingViolation));
    assert_eq!(div_narrow_512(&ones_512(), &w512(3)), Err(ArithError::NarrowingViolation));
}

#[test]
fn leading_zeros_boundaries() {
    assert_eq!(leading_zeros(&w256(0)), 256);
    assert_eq!(leading_zeros(&w256(1)), 255);
    assert_eq!(leading_zeros(&pow2_256(255)), 0);
    assert_eq!(leading_zeros(&ones_256()), 0);
}

#[test]
fn leading_zeros_of_top_bit() {
    assert_eq!(leading_zeros(&pow2_256(255)), 0);
}

#[test]
fn leading_zeros_inside_a_byte() {
    assert_eq!(leading_zeros(&pow2_256(100)), 155);
    assert_eq!(leading_zeros(&w256(0x1ff)), 247);
}

#[test]
fn reciprocal_of_smallest_and_largest_divisor() {
    assert_eq!(reciprocal(&pow2_256(255)), Ok(ones_256()));
    assert_eq!(reciprocal(&ones_256()), Ok(w256(1)));
}

#[test]
fn reciprocal_bound_on_sample() {
    let mut bytes = [0u8; 32];
    bytes[0] = 0xc0;
    let d = Uint256::from_be_bytes(bytes);
    let r = reciprocal(&d).unwrap();
    assert_eq!(r, Uint256::from_be_bytes([0x55u8; 32]));
    let with_base = Uint512 { high: w256(1), low: r };
    let wd = Uint512::widen(d);
    let lower = mul_wide(&with_base, &wd);
    // (r + 2^256) * d == 2^512 - 2^254, and adding d once more passes 2^512
    assert_eq!(lower, sub_512(&w512(0), &pow2_512(254)));
    assert_eq!(add_512(&lower, &wd), pow2_512(255));
}

#[test]
fn reciprocal_rejects_unnormalised_divisor() {
    assert_eq!(reciprocal(&w256(1)), Err(ArithError::DivisorOutOfRange));
    assert_eq!(reciprocal(&pow2_256(254)), Err(ArithError::DivisorOutOfRange));
}

#[test]
fn reciprocal2_of_smallest_and_largest_divisor() {
    assert_eq!(reciprocal2(&pow2_512(511)), Ok(ones_256()));
    assert_eq!(reciprocal2(&ones_512()), Ok(w256(0)));
}

#[test]
fn reciprocal2_rejects_unnormalised_divisor() {
    let d = Uint512 { high: pow2_256(254), low: ones_256() };
    assert_eq!(reciprocal2(&d), Err(ArithError::DivisorOutOfRange));
}

#[test]
fn abi_encoding_puts_low_limb_first() {
    let x = Uint512 { high: w256(0xaabb), low: w256(0x1122) };
    let bytes = abi_encode_limbs(&x);
    assert_eq!(bytes.len(), 64);
    assert_eq!(&bytes[..32], &w256(0x1122).bytes[..]);
    assert_eq!(&bytes[32..], &w256(0xaabb).bytes[..]);
}

#[test]
fn byte_encodings_round_trip() {
    let mut bytes = [0u8; 64];
    for (i, b) in bytes.iter_mut().enumerate() {
        *b = i as u8;
    }
    let x = Uint512::from_be_bytes(bytes);
    assert_eq!(x.high.bytes[0], 0);
    assert_eq!(x.low.bytes[0], 32);
    assert_eq!(x.to_be_bytes(), bytes);
    let mut wide = [0u8; 96];
    for (i, b) in wide.iter_mut().enumerate() {
        *b = (i * 3) as u8;
    }
    let y = Uint768::from_be_bytes(wide);
    assert_eq!(y.h1.bytes[0], 96);
    assert_eq!(y.to_be_bytes(), wide);
}

#[test]
fn narrowing_keeps_only_values_that_fit() {
    assert_eq!(w512(77).narrow(), Some(w256(77)));
    assert_eq!(pow2_512(256).narrow(), None);
    assert!(Uint512::max() == ones_512());
    assert!(Uint512::limb_weight() == pow2_512(256));
    assert!(w512(0).is_zero());
    assert!(!pow2_512(400).is_zero());
    assert!(pow2_256(255).top_bit_set());
    assert!(!ones_256().bytes.is_empty() && !pow2_256(254).top_bit_set());
}

#[test]
fn add_overflow_flag() {
    assert!(add_512_overflows(&ones_512(), &w512(1)));
    assert!(!add_512_overflows(&ones_512(), &w512(0)));
    assert!(add_512_overflows(&pow2_512(511), &pow2_512(511)));
    assert!(!add_512_overflows(&pow2_512(511), &pow2_512(510)));
}

#[test]
fn mul_overflow_flag() {
    assert!(mul_wide_overflows(&pow2_512(256), &pow2_512(256)));
    assert!(!mul_wide_overflows(&pow2_512(255), &pow2_512(256)));
    assert!(mul_wide_overflows(&ones_512(), &w512(2)));
    assert!(!mul_wide_overflows(&ones_512(), &w512(1)));
}

#[test]
fn div_narrow_512_of_largest_by_limb_weight() {
    assert_eq!(div_narrow_512(&ones_512(), &pow2_512(256)), Ok(ones_256()));
    assert_eq!(div_narrow_256(&ones_512(), &pow2_256(255)), Err(ArithError::NarrowingViolation));
    assert_eq!(div_narrow_256(&ones_512(), &ones_256()), Err(ArithError::NarrowingViolation));
    assert_eq!(div_narrow_256(&pow2_512(300), &pow2_256(100)), Ok(pow2_256(200)));
}
