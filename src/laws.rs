use vstd::prelude::*;

use vstd::arithmetic::mul::{lemma_mul_is_distributive_add, lemma_mul_is_distributive_sub};

use crate::cubic_extension::{
    norm_in_base_field,
    inverse_det, inverse_minors, inverse_result, lemma_poly_mul_congruent,
    bits_decode, bits_encode, bytes_decode, bytes_encode, congruent3, ext_add, ext_frobenius,
    ext_lt, ext_mul, ext_square, lemma_reduce_congruent, modulus, poly_mul, reduce, reduced,
    Coeffs, CubicExtParameters,
};
use crate::fp::{
    congruent, has_inverse, lemma_congruent_sub, lemma_congruent_add, lemma_congruent_mod, lemma_congruent_mul, CodecError,
};

verus! {

/// Lexicographic comparison is a strict total order: irreflexive, asymmetric,
/// transitive, and any two distinct elements are comparable.
pub proof fn lemma_order_is_strict_total(x: Coeffs, y: Coeffs, z: Coeffs)
    ensures
        !ext_lt(x, x),
        ext_lt(x, y) ==> !ext_lt(y, x),
        ext_lt(x, y) && ext_lt(y, z) ==> ext_lt(x, z),
        x == y || ext_lt(x, y) || ext_lt(y, x),
{
}

/// Decoding the byte form of an element gives the element back.
pub proof fn lemma_bytes_round_trip<P: CubicExtParameters>(x: Coeffs, b: Seq<u8>)
    requires
        reduced::<P>(x),
        bytes_encode(b, x),
    ensures
        bytes_decode::<P>(b) == Ok::<Coeffs, CodecError>(x),
{
}

/// Decoding the bit form of an element gives the element back.
pub proof fn lemma_bits_round_trip<P: CubicExtParameters>(x: Coeffs, b: Seq<bool>)
    requires
        reduced::<P>(x),
        bits_encode::<P>(b, x),
    ensures
        bits_decode::<P>(b) == Ok::<Coeffs, CodecError>(x),
{
}

/// Squaring by CH-SQR2 agrees with multiplying an element by itself.
pub proof fn lemma_square_is_mul<P: CubicExtParameters>(x: Coeffs)
    ensures
        ext_square::<P>(x) == ext_mul::<P>(x, x),
{
    let nr = P::spec_nonresidue();
    let (x0, x1, x2) = x;
    assert(x0 * x0 + 2 * nr * (x1 * x2) == x0 * x0 + nr * (x1 * x2 + x2 * x1))
        by (nonlinear_arith);
    assert(2 * (x0 * x1) + nr * (x2 * x2) == x0 * x1 + x1 * x0 + nr * (x2 * x2))
        by (nonlinear_arith);
    assert(2 * (x0 * x2) + x1 * x1 == x0 * x2 + x1 * x1 + x2 * x0) by (nonlinear_arith);
}

/// Addition is commutative.
pub proof fn lemma_add_commutative<P: CubicExtParameters>(x: Coeffs, y: Coeffs)
    ensures
        ext_add::<P>(x, y) == ext_add::<P>(y, x),
{
}

/// Addition is associative.
pub proof fn lemma_add_associative<P: CubicExtParameters>(x: Coeffs, y: Coeffs, z: Coeffs)
    ensures
        ext_add::<P>(ext_add::<P>(x, y), z) == ext_add::<P>(x, ext_add::<P>(y, z)),
{
    let m = modulus::<P>();
    P::lemma_modulus_pos();
    let s = (x.0 + y.0, x.1 + y.1, x.2 + y.2);
    let t = (y.0 + z.0, y.1 + z.1, y.2 + z.2);
    lemma_reduce_congruent(s, m);
    lemma_reduce_congruent(t, m);
    lemma_congruent_add(s.0 % m, s.0, z.0, z.0, m);
    lemma_congruent_add(s.1 % m, s.1, z.1, z.1, m);
    lemma_congruent_add(s.2 % m, s.2, z.2, z.2, m);
    lemma_congruent_add(x.0, x.0, t.0 % m, t.0, m);
    lemma_congruent_add(x.1, x.1, t.1 % m, t.1, m);
    lemma_congruent_add(x.2, x.2, t.2 % m, t.2, m);
}

/// Zero is neutral for addition.
pub proof fn lemma_add_zero<P: CubicExtParameters>(x: Coeffs)
    requires
        reduced::<P>(x),
    ensures
        ext_add::<P>(x, (0int, 0int, 0int)) == x,
{
    let m = modulus::<P>();
    vstd::arithmetic::div_mod::lemma_small_mod(x.0 as nat, m as nat);
    vstd::arithmetic::div_mod::lemma_small_mod(x.1 as nat, m as nat);
    vstd::arithmetic::div_mod::lemma_small_mod(x.2 as nat, m as nat);
}

/// One is neutral for multiplication.
pub proof fn lemma_mul_one<P: CubicExtParameters>(x: Coeffs)
    requires
        reduced::<P>(x),
    ensures
        ext_mul::<P>(x, (1int, 0int, 0int)) == x,
{
    let m = modulus::<P>();
    let nr = P::spec_nonresidue();
    assert(poly_mul(x, (1int, 0int, 0int), nr) == x) by (nonlinear_arith);
    vstd::arithmetic::div_mod::lemma_small_mod(x.0 as nat, m as nat);
    vstd::arithmetic::div_mod::lemma_small_mod(x.1 as nat, m as nat);
    vstd::arithmetic::div_mod::lemma_small_mod(x.2 as nat, m as nat);
}

/// Multiplication is commutative.
pub proof fn lemma_mul_commutative<P: CubicExtParameters>(x: Coeffs, y: Coeffs)
    ensures
        ext_mul::<P>(x, y) == ext_mul::<P>(y, x),
{
    let nr = P::spec_nonresidue();
    assert(poly_mul(x, y, nr) == poly_mul(y, x, nr)) by (nonlinear_arith);
}

/// Applying the Frobenius map for power one three times is the identity, where
/// the coefficients for power one are cube roots of unity (as they are for a
/// consistent parameter set, by Fermat's little theorem).
pub proof fn lemma_frobenius_period<P: CubicExtParameters>(x: Coeffs)
    requires
        reduced::<P>(x),
        ({
            let w = P::spec_frob_coeff_c1(1);
            (w * w * w) % modulus::<P>() == 1
        }),
        ({
            let w = P::spec_frob_coeff_c2(1);
            (w * w * w) % modulus::<P>() == 1
        }),
    ensures
        ext_frobenius::<P>(ext_frobenius::<P>(ext_frobenius::<P>(x, 1), 1), 1) == x,
{
    let m = modulus::<P>();
    P::lemma_modulus_pos();
    lemma_cube_root_of_unity(x.1, P::spec_frob_coeff_c1(1), m);
    lemma_cube_root_of_unity(x.2, P::spec_frob_coeff_c2(1), m);
}

/// Multiplying a residue three times by a cube root of unity gives it back.
proof fn lemma_cube_root_of_unity(v: int, w: int, m: int)
    requires
        m > 0,
        0 <= v < m,
        (w * w * w) % m == 1,
    ensures
        (((v * w) % m * w) % m * w) % m == v,
{
    let a = (v * w) % m;
    let b = (a * w) % m;
    lemma_congruent_mod(v * w, m);
    lemma_congruent_mul(a, v * w, w, w, m);
    lemma_congruent_mod(a * w, m);
    lemma_congruent_mul(b, v * w * w, w, w, m);
    lemma_congruent_mod(b * w, m);
    assert(v * w * w * w == v * (w * w * w)) by (nonlinear_arith);
    lemma_congruent_mod(w * w * w, m);
    lemma_congruent_mul(v, v, w * w * w, 1, m);
    vstd::arithmetic::div_mod::lemma_small_mod(v as nat, m as nat);
}

/// An element times its minors is its determinant.
pub proof fn lemma_minors_product(x: Coeffs, nr: int)
    ensures
        poly_mul(x, inverse_minors(x, nr), nr) == (inverse_det(x, nr), 0int, 0int),
{
    let (a0, a1, a2) = x;
    // second coefficient
    lemma_mul_is_distributive_sub(a0, nr * (a2 * a2), a0 * a1);
    lemma_mul_is_distributive_sub(a1, a0 * a0, nr * (a1 * a2));
    lemma_mul_is_distributive_sub(a2, a1 * a1, a0 * a2);
    lemma_mul_is_distributive_sub(nr, a2 * (a1 * a1), a2 * (a0 * a2));
    assert(a0 * (nr * (a2 * a2)) == nr * (a2 * (a0 * a2))) by (nonlinear_arith);
    assert(a0 * (a0 * a1) == a1 * (a0 * a0)) by (nonlinear_arith);
    assert(a1 * (nr * (a1 * a2)) == nr * (a2 * (a1 * a1))) by (nonlinear_arith);
    // third coefficient
    lemma_mul_is_distributive_sub(a0, a1 * a1, a0 * a2);
    lemma_mul_is_distributive_sub(a1, nr * (a2 * a2), a0 * a1);
    lemma_mul_is_distributive_sub(a2, a0 * a0, nr * (a1 * a2));
    assert(a0 * (a1 * a1) == a1 * (a0 * a1)) by (nonlinear_arith);
    assert(a0 * (a0 * a2) == a2 * (a0 * a0)) by (nonlinear_arith);
    assert(a1 * (nr * (a2 * a2)) == a2 * (nr * (a1 * a2))) by (nonlinear_arith);
}

/// Multiplying one factor by `t` multiplies the product by `t`.
pub proof fn lemma_poly_mul_scale(x: Coeffs, y: Coeffs, t: int, nr: int)
    ensures
        poly_mul(x, (t * y.0, t * y.1, t * y.2), nr) == ({
            let p = poly_mul(x, y, nr);
            (t * p.0, t * p.1, t * p.2)
        }),
{
    let (a0, a1, a2) = x;
    let (b0, b1, b2) = y;
    assert forall|u: int, v: int| #[trigger] (u * (t * v)) == t * (u * v) by {
        assert(u * (t * v) == t * (u * v)) by (nonlinear_arith);
    }
    let w0 = a1 * b2 + a2 * b1;
    let w1 = a2 * b2;
    lemma_mul_is_distributive_add(t, a1 * b2, a2 * b1);
    assert(nr * (t * w0) == t * (nr * w0)) by (nonlinear_arith);
    lemma_mul_is_distributive_add(t, a0 * b0, nr * w0);
    assert(nr * (t * w1) == t * (nr * w1)) by (nonlinear_arith);
    lemma_mul_is_distributive_add(t, a0 * b1, a1 * b0);
    lemma_mul_is_distributive_add(t, a0 * b1 + a1 * b0, nr * w1);
    lemma_mul_is_distributive_add(t, a0 * b2, a1 * b1);
    lemma_mul_is_distributive_add(t, a0 * b2 + a1 * b1, a2 * b0);
}

/// A non-zero element times what inversion returns for it is one, wherever its
/// determinant is invertible (for every non-zero element when `X^3 - nonresidue`
/// is irreducible and the modulus prime).
pub proof fn lemma_inverse_is_inverse<P: CubicExtParameters>(x: Coeffs, i: Coeffs)
    requires
        reduced::<P>(x),
        has_inverse(inverse_det(x, P::spec_nonresidue()), modulus::<P>()),
        inverse_result::<P>(x, i),
    ensures
        ext_mul::<P>(x, i) == (1int, 0int, 0int),
{
    let m = modulus::<P>();
    let nr = P::spec_nonresidue();
    P::lemma_modulus_pos();
    let d = inverse_det(x, nr);
    let s = inverse_minors(x, nr);
    let t = choose|t: int|
        (#[trigger] (inverse_det(x, nr) * t)) % m == 1 && i == reduce((t * s.0, t * s.1, t * s.2), m);
    let ts = (t * s.0, t * s.1, t * s.2);
    lemma_reduce_congruent(ts, m);
    lemma_congruent3_refl(x, m);
    lemma_poly_mul_congruent(x, x, i, ts, nr, m);
    lemma_poly_mul_scale(x, s, t, nr);
    lemma_minors_product(x, nr);
    assert(t * 0 == 0);
    assert(t * d == d * t) by (nonlinear_arith);
    vstd::arithmetic::div_mod::lemma_small_mod(1, m as nat);
    vstd::arithmetic::div_mod::lemma_small_mod(0, m as nat);
}

/// `poly_mul` distributes over addition in its second argument.
proof fn lemma_poly_mul_distributes(x: Coeffs, y: Coeffs, z: Coeffs, nr: int)
    ensures
        poly_mul(x, (y.0 + z.0, y.1 + z.1, y.2 + z.2), nr) == ({
            let p = poly_mul(x, y, nr);
            let q = poly_mul(x, z, nr);
            (p.0 + q.0, p.1 + q.1, p.2 + q.2)
        }),
{
    let (a0, a1, a2) = x;
    let (b0, b1, b2) = y;
    let (c0, c1, c2) = z;
    lemma_mul_is_distributive_add(a0, b0, c0);
    lemma_mul_is_distributive_add(a0, b1, c1);
    lemma_mul_is_distributive_add(a0, b2, c2);
    lemma_mul_is_distributive_add(a1, b0, c0);
    lemma_mul_is_distributive_add(a1, b1, c1);
    lemma_mul_is_distributive_add(a1, b2, c2);
    lemma_mul_is_distributive_add(a2, b0, c0);
    lemma_mul_is_distributive_add(a2, b1, c1);
    lemma_mul_is_distributive_add(a2, b2, c2);
    lemma_mul_is_distributive_add(nr, a1 * b2 + a2 * b1, a1 * c2 + a2 * c1);
    lemma_mul_is_distributive_add(nr, a2 * b2, a2 * c2);
}

/// Multiplication distributes over addition.
pub proof fn lemma_mul_distributes<P: CubicExtParameters>(x: Coeffs, y: Coeffs, z: Coeffs)
    ensures
        ext_mul::<P>(x, ext_add::<P>(y, z)) == ext_add::<P>(ext_mul::<P>(x, y), ext_mul::<P>(x, z)),
{
    let m = modulus::<P>();
    let nr = P::spec_nonresidue();
    P::lemma_modulus_pos();
    let s = (y.0 + z.0, y.1 + z.1, y.2 + z.2);
    lemma_reduce_congruent(s, m);
    lemma_congruent3_refl(x, m);
    lemma_poly_mul_congruent(x, x, reduce(s, m), s, nr, m);
    lemma_poly_mul_distributes(x, y, z, nr);
    let p = poly_mul(x, y, nr);
    let q = poly_mul(x, z, nr);
    lemma_reduce_congruent(p, m);
    lemma_reduce_congruent(q, m);
    lemma_congruent_add(p.0 % m, p.0, q.0 % m, q.0, m);
    lemma_congruent_add(p.1 % m, p.1, q.1 % m, q.1, m);
    lemma_congruent_add(p.2 % m, p.2, q.2 % m, q.2, m);
}

/// Multiplication by `X`: `(w0, w1, w2) -> (nr w2, w0, w1)`.
pub open spec fn shift(w: Coeffs, nr: int) -> Coeffs {
    (nr * w.2, w.0, w.1)
}

/// `w0 u + w1 v + w2 s`, componentwise.
pub open spec fn combine(w: Coeffs, u: Coeffs, v: Coeffs, s: Coeffs) -> Coeffs {
    (
        w.0 * u.0 + w.1 * v.0 + w.2 * s.0,
        w.0 * u.1 + w.1 * v.1 + w.2 * s.1,
        w.0 * u.2 + w.1 * v.2 + w.2 * s.2,
    )
}

/// A product is the combination of `w`, `X w` and `X^2 w` by the coefficients of `z`.
proof fn lemma_poly_mul_by_shifts(w: Coeffs, z: Coeffs, nr: int)
    ensures
        poly_mul(w, z, nr) == combine(z, w, shift(w, nr), shift(shift(w, nr), nr)),
{
    let (w0, w1, w2) = w;
    let (z0, z1, z2) = z;
    lemma_mul_is_distributive_add(nr, w1 * z2, w2 * z1);
    assert(nr * (w1 * z2) == z2 * (nr * w1)) by (nonlinear_arith);
    assert(nr * (w2 * z1) == z1 * (nr * w2)) by (nonlinear_arith);
    assert(nr * (w2 * z2) == z2 * (nr * w2)) by (nonlinear_arith);
    assert(w0 * z0 == z0 * w0 && w0 * z1 == z1 * w0 && w0 * z2 == z2 * w0) by (nonlinear_arith);
    assert(w1 * z0 == z0 * w1 && w1 * z1 == z1 * w1 && w2 * z0 == z0 * w2) by (nonlinear_arith);
}

/// Multiplying the second factor by `X` multiplies the product by `X`.
proof fn lemma_poly_mul_shift(x: Coeffs, y: Coeffs, nr: int)
    ensures
        poly_mul(x, shift(y, nr), nr) == shift(poly_mul(x, y, nr), nr),
{
    let (x0, x1, x2) = x;
    let (y0, y1, y2) = y;
    lemma_mul_is_distributive_add(nr, x1 * y1, x2 * y0);
    lemma_mul_is_distributive_add(nr, x0 * y2 + x1 * y1, x2 * y0);
    lemma_mul_is_distributive_add(nr, x0 * y2, x1 * y1);
    assert(x0 * (nr * y2) == nr * (x0 * y2)) by (nonlinear_arith);
    assert(x1 * (nr * y2) == nr * (x1 * y2)) by (nonlinear_arith);
    assert(x2 * (nr * y2) == nr * (x2 * y2)) by (nonlinear_arith);
    lemma_mul_is_distributive_add(nr, x1 * y2, x2 * y1);
}

/// `poly_mul` is associative.
proof fn lemma_poly_mul_associative(x: Coeffs, y: Coeffs, z: Coeffs, nr: int)
    ensures
        poly_mul(poly_mul(x, y, nr), z, nr) == poly_mul(x, poly_mul(y, z, nr), nr),
{
    let p = poly_mul(x, y, nr);
    let sy = shift(y, nr);
    let s2y = shift(sy, nr);
    lemma_poly_mul_by_shifts(p, z, nr);
    lemma_poly_mul_by_shifts(y, z, nr);
    lemma_poly_mul_shift(x, y, nr);
    lemma_poly_mul_shift(x, sy, nr);
    // x * (z0 y + z1 sy + z2 s2y) = z0 (x y) + z1 (x sy) + z2 (x s2y)
    let u = (z.0 * y.0, z.0 * y.1, z.0 * y.2);
    let v = (z.1 * sy.0, z.1 * sy.1, z.1 * sy.2);
    let s = (z.2 * s2y.0, z.2 * s2y.1, z.2 * s2y.2);
    lemma_poly_mul_scale(x, y, z.0, nr);
    lemma_poly_mul_scale(x, sy, z.1, nr);
    lemma_poly_mul_scale(x, s2y, z.2, nr);
    lemma_poly_mul_distributes(x, u, v, nr);
    lemma_poly_mul_distributes(x, (u.0 + v.0, u.1 + v.1, u.2 + v.2), s, nr);
}

/// Multiplication is associative.
pub proof fn lemma_mul_associative<P: CubicExtParameters>(x: Coeffs, y: Coeffs, z: Coeffs)
    ensures
        ext_mul::<P>(ext_mul::<P>(x, y), z) == ext_mul::<P>(x, ext_mul::<P>(y, z)),
{
    let m = modulus::<P>();
    let nr = P::spec_nonresidue();
    P::lemma_modulus_pos();
    let p = poly_mul(x, y, nr);
    let q = poly_mul(y, z, nr);
    lemma_reduce_congruent(p, m);
    lemma_reduce_congruent(q, m);
    lemma_congruent3_refl(x, m);
    lemma_congruent3_refl(z, m);
    lemma_poly_mul_congruent(reduce(p, m), p, z, z, nr, m);
    lemma_poly_mul_congruent(x, x, reduce(q, m), q, nr, m);
    lemma_poly_mul_associative(x, y, z, nr);
}

/// The Frobenius coefficients agree with a primitive cube root of unity
/// `w = frob_coeff_c1(1)`: the `c2` coefficient for power one and the `c1`
/// coefficient for power two are `w^2`, the `c2` coefficient for power two is `w`,
/// and `1 + w + w^2 = 0`.
pub open spec fn frobenius_coefficients_consistent<P: CubicExtParameters>() -> bool {
    let m = modulus::<P>();
    let w = P::spec_frob_coeff_c1(1);
    congruent(P::spec_frob_coeff_c2(1), w * w, m) && congruent(P::spec_frob_coeff_c1(2), w * w, m)
        && congruent(P::spec_frob_coeff_c2(2), w, m) && (1 + w + w * w) % m == 0
}

/// The extension coefficients of `x * s(x) * s^2(x)` over the integers, where `s`
/// multiplies `c1`, `c2` by `w`, `-1 - w` and `s^2` by `-1 - w`, `w`, are multiples
/// of `1 + w + w^2`.
proof fn lemma_norm_polynomial(x: Coeffs, w: int, nr: int)
    ensures
        ({
            let v = -1 - w;
            let f1 = (x.0, x.1 * w, x.2 * v);
            let f2 = (x.0, x.1 * v, x.2 * w);
            let n = poly_mul(f1, poly_mul(f2, x, nr), nr);
            let g = 1 + w + w * w;
            n.1 == g * (-(nr * (x.2 * (x.0 * x.2 - x.1 * x.1)))) && n.2 == g * (nr * (x.1 * (x.2
                * x.2)) - x.0 * (x.1 * x.1))
        }),
{
    let (x0, x1, x2) = x;
    let v = -1 - w;
    let f1 = (x0, x1 * w, x2 * v);
    let f2 = (x0, x1 * v, x2 * w);
    let t = poly_mul(f2, x, nr);
    let a = x0 * x2 - x1 * x1;
    assert(t.0 == x0 * x0 - nr * (x1 * x2)) by (nonlinear_arith)
        requires
            t.0 == x0 * x0 + nr * ((x1 * v) * x2 + (x2 * w) * x1),
            v == -1 - w,
    ;
    assert(t.1 == w * (nr * (x2 * x2) - x0 * x1)) by (nonlinear_arith)
        requires
            t.1 == x0 * x1 + (x1 * v) * x0 + nr * ((x2 * w) * x2),
            v == -1 - w,
    ;
    assert(t.2 == (1 + w) * a) by (nonlinear_arith)
        requires
            t.2 == x0 * x2 + (x1 * v) * x1 + (x2 * w) * x0,
            v == -1 - w,
            a == x0 * x2 - x1 * x1,
    ;
    let n = poly_mul(f1, t, nr);
    let g = 1 + w + w * w;
    // n.1 = x0 t1 + (x1 w) t0 + nr ((x2 v) t2)
    let u = w * (nr * (x2 * x2));
    let uu = w * (x0 * x1);
    lemma_mul_is_distributive_sub(w, nr * (x2 * x2), x0 * x1);
    lemma_mul_is_distributive_sub(x0, u, uu);
    lemma_mul_is_distributive_sub(x1 * w, x0 * x0, nr * (x1 * x2));
    let m1 = nr * (x0 * (x2 * x2));
    let m2 = x0 * (x0 * x1);
    let m3 = nr * (x1 * (x1 * x2));
    assert(x0 * u == w * m1) by (nonlinear_arith)
        requires
            u == w * (nr * (x2 * x2)),
            m1 == nr * (x0 * (x2 * x2)),
    ;
    assert(x0 * uu == w * m2) by (nonlinear_arith)
        requires
            uu == w * (x0 * x1),
            m2 == x0 * (x0 * x1),
    ;
    assert((x1 * w) * (x0 * x0) == w * m2) by (nonlinear_arith)
        requires
            m2 == x0 * (x0 * x1),
    ;
    assert((x1 * w) * (nr * (x1 * x2)) == w * m3) by (nonlinear_arith)
        requires
            m3 == nr * (x1 * (x1 * x2)),
    ;
    let p = x0 * t.1 + (x1 * w) * t.0;
    assert(p == w * m1 - w * m3);
    lemma_mul_is_distributive_sub(x2, x0 * x2, x1 * x1);
    lemma_mul_is_distributive_sub(nr, x2 * (x0 * x2), x2 * (x1 * x1));
    assert(nr * (x2 * (x0 * x2)) == m1) by (nonlinear_arith)
        requires
            m1 == nr * (x0 * (x2 * x2)),
    ;
    assert(nr * (x2 * (x1 * x1)) == m3) by (nonlinear_arith)
        requires
            m3 == nr * (x1 * (x1 * x2)),
    ;
    lemma_mul_is_distributive_sub(w, m1, m3);
    assert(p == w * (nr * (x2 * a)));
    let k = nr * (x2 * a);
    assert(nr * ((x2 * v) * t.2) == -((1 + w) * (1 + w) * k)) by (nonlinear_arith)
        requires
            t.2 == (1 + w) * a,
            v == -1 - w,
            k == nr * (x2 * a),
    ;
    assert(w * k - (1 + w) * (1 + w) * k == g * (-k)) by (nonlinear_arith)
        requires
            g == 1 + w + w * w,
    ;
    // n.2 = x0 t2 + (x1 w) t1 + (x2 v) t0
    let s = 1 + w;
    let b = nr * (x1 * (x2 * x2));
    let c = x0 * (x1 * x1);
    let d = x0 * (x0 * x2);
    assert(x0 * (s * a) == s * (x0 * a)) by (nonlinear_arith)
        requires
            s == 1 + w,
            a == x0 * x2 - x1 * x1,
    ;
    lemma_mul_is_distributive_sub(x0, x0 * x2, x1 * x1);
    lemma_mul_is_distributive_sub(x2 * v, x0 * x0, nr * (x1 * x2));
    assert((x2 * v) * (x0 * x0) == v * d) by (nonlinear_arith)
        requires
            d == x0 * (x0 * x2),
            v == -1 - w,
    ;
    assert((x2 * v) * (nr * (x1 * x2)) == v * b) by (nonlinear_arith)
        requires
            b == nr * (x1 * (x2 * x2)),
            v == -1 - w,
    ;
    lemma_mul_is_distributive_sub(s, d, c);
    assert(v * d == -(s * d)) by (nonlinear_arith)
        requires
            v == -1 - w,
            s == 1 + w,
    ;
    assert(s * (-c) == -(s * c)) by (nonlinear_arith)
        requires
            c == x0 * (x1 * x1),
            s == 1 + w,
    ;
    let q = x0 * t.2 + (x2 * v) * t.0;
    assert(q == s * (-c) - v * b);
    lemma_mul_is_distributive_sub(x1 * w, u, uu);
    assert((x1 * w) * u == w * w * b) by (nonlinear_arith)
        requires
            u == w * (nr * (x2 * x2)),
            b == nr * (x1 * (x2 * x2)),
    ;
    assert((x1 * w) * uu == w * w * c) by (nonlinear_arith)
        requires
            uu == w * (x0 * x1),
            c == x0 * (x1 * x1),
    ;
    let r = (x1 * w) * t.1;
    assert(r == w * w * b - w * w * c);
    assert(-(v * b) == s * b) by (nonlinear_arith)
        requires
            v == -1 - w,
            s == 1 + w,
    ;
    assert((1 + w) * (-c) + (1 + w) * b + w * w * b - w * w * c == g * (b - c)) by (nonlinear_arith)
        requires
            g == 1 + w + w * w,
    ;
    assert(n.1 == p + nr * ((x2 * v) * t.2));
    assert(n.1 == g * (-k));
    assert(n.2 == q + r);
    assert(n.2 == g * (b - c));
}

/// The norm of every element lies in the base field: its extension coefficients
/// vanish, wherever the Frobenius coefficients are consistent.
pub proof fn lemma_norm_in_base_field<P: CubicExtParameters>(x: Coeffs)
    requires
        reduced::<P>(x),
        frobenius_coefficients_consistent::<P>(),
    ensures
        norm_in_base_field::<P>(x),
{
    let m = modulus::<P>();
    let nr = P::spec_nonresidue();
    P::lemma_modulus_pos();
    let w = P::spec_frob_coeff_c1(1);
    let v = -1 - w;
    let g = 1 + w + w * w;
    vstd::arithmetic::div_mod::lemma_small_mod(0, m as nat);
    lemma_congruent_sub(g, 0, 1 + w, 1 + w, m);
    assert(congruent(w * w, v, m));
    let e1 = ext_frobenius::<P>(x, 1);
    let e2 = ext_frobenius::<P>(x, 2);
    let f1 = (x.0, x.1 * w, x.2 * v);
    let f2 = (x.0, x.1 * v, x.2 * w);
    lemma_congruent_mod(x.1 * w, m);
    lemma_congruent_mod(x.2 * P::spec_frob_coeff_c2(1), m);
    lemma_congruent_mul(x.2, x.2, P::spec_frob_coeff_c2(1), v, m);
    lemma_congruent_mod(x.1 * P::spec_frob_coeff_c1(2), m);
    lemma_congruent_mul(x.1, x.1, P::spec_frob_coeff_c1(2), v, m);
    lemma_congruent_mod(x.2 * P::spec_frob_coeff_c2(2), m);
    lemma_congruent_mul(x.2, x.2, P::spec_frob_coeff_c2(2), w, m);
    assert(congruent3(e1, f1, m));
    assert(congruent3(e2, f2, m));
    lemma_congruent3_refl(x, m);
    let t = poly_mul(f2, x, nr);
    lemma_poly_mul_congruent(e2, f2, x, x, nr, m);
    lemma_reduce_congruent(poly_mul(e2, x, nr), m);
    let inner = ext_mul::<P>(e2, x);
    assert(congruent3(inner, t, m));
    lemma_poly_mul_congruent(e1, f1, inner, t, nr, m);
    lemma_reduce_congruent(poly_mul(e1, inner, nr), m);
    lemma_norm_polynomial(x, w, nr);
    let n = poly_mul(f1, t, nr);
    lemma_congruent_mod(g, m);
    let k1 = -(nr * (x.2 * (x.0 * x.2 - x.1 * x.1)));
    lemma_congruent_mul(g, 0, k1, k1, m);
    lemma_congruent_mul(g, 0, nr * (x.1 * (x.2 * x.2)) - x.0 * (x.1 * x.1), nr * (x.1 * (x.2
        * x.2)) - x.0 * (x.1 * x.1), m);
}

/// The inverse of an element `(c, 0, 0)` of the base field, with `c` invertible
/// modulo `p`, is `(c^-1, 0, 0)`: its first coefficient is the reduced inverse
/// of `c` and the others are zero.
pub proof fn lemma_inverse_of_base_element<P: CubicExtParameters>(c: int, i: Coeffs)
    requires
        0 <= c < modulus::<P>(),
        has_inverse(c, modulus::<P>()),
        inverse_result::<P>((c, 0int, 0int), i),
    ensures
        i.1 == 0,
        i.2 == 0,
        0 <= i.0 < modulus::<P>(),
        (c * i.0) % modulus::<P>() == 1,
{
    let m = modulus::<P>();
    let nr = P::spec_nonresidue();
    P::lemma_modulus_pos();
    let x = (c, 0int, 0int);
    let s = inverse_minors(x, nr);
    let d = inverse_det(x, nr);
    assert(c * 0 == 0 && 0int * 0 == 0 && nr * 0 == 0) by (nonlinear_arith);
    assert(s == (c * c, 0int, 0int));
    assert(d == c * (c * c)) by (nonlinear_arith)
        requires
            d == inverse_det(x, nr),
            x == (c, 0int, 0int),
    ;
    let y = choose|y: int| #[trigger] (c * y) % m == 1;
    assert(d * (y * (y * y)) == (c * y) * ((c * y) * (c * y))) by (nonlinear_arith)
        requires
            d == c * (c * c),
    ;
    vstd::arithmetic::div_mod::lemma_small_mod(1, m as nat);
    lemma_congruent_mul(c * y, 1, c * y, 1, m);
    lemma_congruent_mul(c * y, 1, (c * y) * (c * y), 1, m);
    assert((d * (y * (y * y))) % m == 1);
    assert(has_inverse(d, m));
    let t = choose|t: int|
        (#[trigger] (inverse_det(x, nr) * t)) % m == 1 && i == reduce((t * s.0, t * s.1, t * s.2), m);
    assert(t * 0 == 0);
    vstd::arithmetic::div_mod::lemma_small_mod(0, m as nat);
    lemma_congruent_mod(t * (c * c), m);
    lemma_congruent_mul(c, c, i.0, t * (c * c), m);
    assert(c * (t * (c * c)) == d * t) by (nonlinear_arith)
        requires
            d == c * (c * c),
    ;
}

proof fn lemma_congruent3_refl(x: Coeffs, m: int)
    ensures
        congruent3(x, x, m),
{
}

} // verus!
