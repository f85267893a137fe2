use cubic_ext::cubic_extension::{CubicExtField, CubicExtParameters};
use cubic_ext::fp::{CodecError, Fp};
use cubic_ext::small_fields::{F13Nr2, F13Nr5};
use std::cmp::Ordering;

fn el<P: CubicExtParameters>(a: u64, b: u64, c: u64) -> CubicExtField<P> {
    CubicExtField::new(Fp::from_u64(a), Fp::from_u64(b), Fp::from_u64(c))
}

fn coeffs<P: CubicExtParameters>(x: &CubicExtField<P>) -> (u64, u64, u64) {
    (x.c0.value, x.c1.value, x.c2.value)
}

#[test]
fn karatsuba_matches_polynomial_product() {
    let x = el::<F13Nr5>(1, 2, 3);
    let y = el::<F13Nr5>(4, 0, 1);
    // (1 + 2X + 3X^2)(4 + X^2) = 4 + 8X + 13X^2 + 2X^3 + 3X^4, with X^3 = 5
    assert_eq!(coeffs(&x.mul(&y)), (1, 10, 0));
    assert_eq!(x.mul(&y), y.mul(&x));
}

#[test]
fn square_equals_mul() {
    let x = el::<F13Nr5>(1, 2, 3);
    assert_eq!(x.square(), x.mul(&x));
    assert_eq!(coeffs(&x.square()), (9, 10, 10));
    let mut y = x;
    y.square_in_place();
    assert_eq!(y, x.square());
}

#[test]
fn inverse_of_base_field_element() {
    let x = el::<F13Nr5>(3, 0, 0);
    let inv = x.inverse().unwrap();
    assert_eq!(coeffs(&inv), (9, 0, 0));
    assert!(x.mul(&inv).is_one());
}

#[test]
fn inverse_of_zero_is_none() {
    assert!(CubicExtField::<F13Nr5>::zero().inverse().is_none());
    let mut z = CubicExtField::<F13Nr2>::zero();
    assert!(!z.inverse_in_place());
    assert!(z.is_zero());
}

#[test]
fn inverse_in_field_extension() {
    for (a, b, c) in [(1, 2, 3), (0, 0, 7), (5, 12, 0), (0, 1, 0)] {
        let x = el::<F13Nr2>(a, b, c);
        let inv = x.inverse().unwrap();
        assert!(x.mul(&inv).is_one());
        let mut y = x;
        assert!(y.inverse_in_place());
        assert_eq!(y, inv);
        assert_eq!(x.div(&x), CubicExtField::one());
    }
}

#[test]
fn frobenius_has_period_three() {
    let x = el::<F13Nr2>(1, 2, 3);
    let mut y = x;
    y.frobenius_map(1);
    assert_eq!(coeffs(&y), (1, 6, 1));
    y.frobenius_map(1);
    assert_ne!(y, x);
    y.frobenius_map(1);
    assert_eq!(y, x);
    let mut z = x;
    z.frobenius_map(3);
    assert_eq!(z, x);
}

#[test]
fn norm_lands_in_base_field() {
    let x = el::<F13Nr2>(1, 2, 3);
    // x0^3 + nr x1^3 + nr^2 x2^3 - 3 nr x0 x1 x2 = 89 = 11 mod 13
    assert_eq!(x.norm().value, 11);
    let mut p = x;
    p.frobenius_map(1);
    let mut q = x;
    q.frobenius_map(2);
    let n = p.mul(&q).mul(&x);
    assert_eq!(coeffs(&n), (11, 0, 0));
}

#[test]
fn ring_axioms_on_values() {
    let a = el::<F13Nr2>(1, 2, 3);
    let b = el::<F13Nr2>(4, 0, 1);
    let c = el::<F13Nr2>(12, 7, 5);
    assert_eq!(a.add(&b), b.add(&a));
    assert_eq!(a.add(&b).add(&c), a.add(&b.add(&c)));
    assert_eq!(a.add(&CubicExtField::zero()), a);
    assert_eq!(a.mul(&b.mul(&c)), a.mul(&b).mul(&c));
    assert_eq!(a.mul(&b.add(&c)), a.mul(&b).add(&a.mul(&c)));
    assert_eq!(a.mul(&CubicExtField::one()), a);
    assert!(a.sub(&a).is_zero());
    assert!(a.add(&a.neg()).is_zero());
    assert_eq!(a.double(), a.add(&a));
    assert_eq!(coeffs(&a.neg()), (12, 11, 10));
}

#[test]
fn scaling_by_base_field() {
    let mut a = el::<F13Nr2>(1, 2, 3);
    a.mul_assign_by_basefield(&Fp::from_u64(5));
    assert_eq!(coeffs(&a), (5, 10, 2));
}

#[test]
fn byte_round_trip() {
    let a = el::<F13Nr2>(1, 12, 3);
    let b = a.to_bytes();
    assert_eq!(b.len(), 24);
    assert_eq!(b[8], 12);
    assert_eq!(CubicExtField::<F13Nr2>::from_bytes(&b), Ok(a));
    assert_eq!(
        CubicExtField::<F13Nr2>::from_bytes(&b[..23].to_vec()),
        Err(CodecError::BadLength)
    );
    let mut bad = b.clone();
    bad[16] = 13;
    assert_eq!(
        CubicExtField::<F13Nr2>::from_bytes(&bad),
        Err(CodecError::NotCanonical)
    );
}

#[test]
fn bit_round_trip() {
    let a = el::<F13Nr2>(1, 12, 3);
    let b = a.to_bits();
    assert_eq!(b.len(), 12);
    assert_eq!(&b[4..8], &[false, false, true, true]);
    assert_eq!(CubicExtField::<F13Nr2>::from_bits(&b), Ok(a));
    assert_eq!(
        CubicExtField::<F13Nr2>::from_bits(&b[..11].to_vec()),
        Err(CodecError::BadLength)
    );
    let mut bad = b.clone();
    for i in 0..4 {
        bad[i] = true;
    }
    assert_eq!(
        CubicExtField::<F13Nr2>::from_bits(&bad),
        Err(CodecError::NotCanonical)
    );
}

#[test]
fn lexicographic_order() {
    let a = el::<F13Nr2>(9, 0, 1);
    let b = el::<F13Nr2>(0, 5, 1);
    let c = el::<F13Nr2>(12, 12, 0);
    assert_eq!(a.cmp(&b), Ordering::Less);
    assert_eq!(b.cmp(&a), Ordering::Greater);
    assert_eq!(c.cmp(&a), Ordering::Less);
    assert_eq!(a.cmp(&a), Ordering::Equal);
}

#[test]
fn parity_of_leading_coefficient() {
    assert!(el::<F13Nr2>(2, 4, 3).is_odd());
    assert!(!el::<F13Nr2>(1, 3, 2).is_odd());
    assert!(el::<F13Nr2>(2, 3, 0).is_odd());
    assert!(el::<F13Nr2>(1, 0, 0).is_odd());
    assert!(!el::<F13Nr2>(2, 0, 0).is_odd());
}

#[test]
fn identities_and_embedding() {
    assert!(CubicExtField::<F13Nr5>::one().is_one());
    assert!(!CubicExtField::<F13Nr5>::zero().is_one());
    assert_eq!(coeffs(&CubicExtField::<F13Nr5>::from_u64(40)), (1, 0, 0));
    assert_eq!(CubicExtField::<F13Nr5>::characteristic(), 13);
    let s = CubicExtField::<F13Nr2>::sample();
    assert!(s.c0.value < 13 && s.c1.value < 13 && s.c2.value < 13);
}

#[test]
fn base_field_inverse() {
    for v in 1..13u64 {
        let x = Fp::<F13Nr2>::from_u64(v);
        let i = x.inverse().unwrap();
        assert_eq!(x.mul(&i).value, 1);
    }
    assert!(Fp::<F13Nr2>::zero().inverse().is_none());
}

#[test]
fn random_draws_reduce_into_coefficients() {
    let x = CubicExtField::<F13Nr2>::from_random(14, 13, u128::MAX);
    // 2^128 = 2^8 = 9 mod 13, so 2^128 - 1 = 8 mod 13
    assert_eq!(coeffs(&x), (1, 0, 8));
    assert_eq!(Fp::<F13Nr2>::from_random(40).value, 1);
    let s = Fp::<F13Nr5>::sample();
    assert!(s.value < 13);
}

#[test]
fn conversions_embed_into_base_field() {
    let a: CubicExtField<F13Nr2> = CubicExtField::from(27u8);
    assert_eq!(coeffs(&a), (1, 0, 0));
    let b: CubicExtField<F13Nr2> = CubicExtField::from(13u16);
    assert!(b.is_zero());
    let c: CubicExtField<F13Nr2> = CubicExtField::from(5u32);
    assert_eq!(coeffs(&c), (5, 0, 0));
    let d: CubicExtField<F13Nr2> = CubicExtField::from(100u64);
    assert_eq!(coeffs(&d), (9, 0, 0));
    let e: CubicExtField<F13Nr2> = CubicExtField::from(u128::MAX);
    assert_eq!(coeffs(&e), (8, 0, 0));
}

#[test]
fn partial_order_matches_cmp() {
    let a = el::<F13Nr2>(9, 0, 1);
    let b = el::<F13Nr2>(0, 5, 1);
    assert_eq!(a.partial_cmp(&b), Some(Ordering::Less));
    assert!(a < b);
    assert!(b > a);
    assert!(a <= a);
}
