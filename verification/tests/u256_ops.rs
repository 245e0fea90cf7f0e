//! Arithmetic of the 256-bit integer type.

use utxo_core::u256::U256;

#[test]
fn add_carries_across_limbs() {
    let a = U256 { lo: u128::MAX, hi: 0 };
    let b = U256::from_u64(1);
    let (sum, carry) = a.add_carry(&b);
    assert!(!carry);
    assert_eq!(sum, U256 { lo: 0, hi: 1 });
}

#[test]
fn add_overflow_reports_carry() {
    let a = U256::max_value();
    let one = U256::one();
    let (sum, carry) = a.add_carry(&one);
    assert!(carry);
    assert_eq!(sum, U256::zero());
}

#[test]
fn sub_borrows_across_limbs() {
    let a = U256 { lo: 0, hi: 1 };
    let b = U256::from_u64(1);
    let diff = a.sub_exact(&b);
    assert_eq!(diff, U256 { lo: u128::MAX, hi: 0 });
}

#[test]
fn div_rem_examples() {
    let a = U256::from_u128(1_000_000_007);
    let d = U256::from_u64(10_000);
    let (q, r) = a.div_rem(&d);
    assert_eq!(q, U256::from_u128(100_000));
    assert_eq!(r, U256::from_u128(7));

    // a wide dividend: (2^128) / 3
    let wide = U256 { lo: 0, hi: 1 };
    let three = U256::from_u64(3);
    let (q, r) = wide.div_rem(&three);
    assert_eq!(r, U256::from_u64(1));
    let expected = U256 { lo: u128::MAX / 3, hi: 0 };
    assert_eq!(q, expected);
}

#[test]
fn mul_u64_examples() {
    let a = U256::from_u128(u128::MAX);
    let p = a.mul_u64(2);
    assert_eq!(p, U256 { lo: u128::MAX - 1, hi: 1 });
    assert_eq!(U256::from_u64(12345).mul_u64(1000), U256::from_u128(12_345_000));
}

#[test]
fn compare_orders_by_value() {
    let small = U256 { lo: u128::MAX, hi: 0 };
    let big = U256 { lo: 0, hi: 1 };
    assert!(small.lt(&big));
    assert!(!big.lt(&small));
    assert!(small.le(&small));
}

#[test]
fn byte_conversions_round_trip() {
    let x = U256 { lo: 0x0123456789abcdef_fedcba9876543210, hi: 0x00ff00ff00ff00ff_aa55aa55aa55aa55 };
    let le = x.to_le_bytes();
    assert_eq!(le.len(), 32);
    let back = U256::from_le_bytes(&le);
    assert_eq!(back, x);

    let mut be = le.clone();
    be.reverse();
    let from_be = U256::from_be_bytes(&be);
    assert_eq!(from_be, x);
}

#[test]
fn le_bytes_of_small_value() {
    let x = U256::from_u64(0x0102);
    let le = x.to_le_bytes();
    assert_eq!(le[0], 0x02);
    assert_eq!(le[1], 0x01);
    for i in 2..32 {
        assert_eq!(le[i], 0);
    }
}

#[test]
fn try_to_u128_bounds() {
    assert_eq!(U256::from_u128(u128::MAX).try_to_u128(), Some(u128::MAX));
    assert_eq!(U256 { lo: 0, hi: 1 }.try_to_u128(), None);
}
