use vstd::prelude::*;

use crate::digits::{le_bits_value, le_bytes_value};
use crate::fp::{
    CodecError,    congruent, has_inverse, lemma_congruent_add, lemma_congruent_mod, lemma_congruent_mul, lemma_congruent_reduced, lemma_step_add, lemma_step_mul, lemma_step_sub, Fp,
    FpParameters,
};

verus! {

/// Coefficients `(c0, c1, c2)` of `c0 + c1 X + c2 X^2`.
pub type Coeffs = (int, int, int);

/// Each coefficient reduced modulo `m`.
pub open spec fn reduce(x: Coeffs, m: int) -> Coeffs {
    (x.0 % m, x.1 % m, x.2 % m)
}

/// Product of two polynomials of degree below three modulo `X^3 - nr`, over the integers.
pub open spec fn poly_mul(x: Coeffs, y: Coeffs, nr: int) -> Coeffs {
    (
        x.0 * y.0 + nr * (x.1 * y.2 + x.2 * y.1),
        x.0 * y.1 + x.1 * y.0 + nr * (x.2 * y.2),
        x.0 * y.2 + x.1 * y.1 + x.2 * y.0,
    )
}

/// Square of a polynomial of degree below three modulo `X^3 - nr`, over the integers.
pub open spec fn poly_square(x: Coeffs, nr: int) -> Coeffs {
    (x.0 * x.0 + 2 * nr * (x.1 * x.2), 2 * (x.0 * x.1) + nr * (x.2 * x.2), 2 * (x.0 * x.2) + x.1 * x.1)
}

/// The parameters of a cubic extension `F[X]/(X^3 - nonresidue)` of the prime
/// field `F` that `Self` also describes.
pub trait CubicExtParameters: FpParameters + Sized {
    /// The non-residue `alpha`, for which `X^3 - alpha` is irreducible.
    spec fn spec_nonresidue() -> int;

    /// The Frobenius coefficient applied to `c1` for the given power.
    spec fn spec_frob_coeff_c1(power: int) -> int;

    /// The Frobenius coefficient applied to `c2` for the given power.
    spec fn spec_frob_coeff_c2(power: int) -> int;

    fn nonresidue() -> (r: Fp<Self>)
        ensures
            r.wf(),
            r.val() == Self::spec_nonresidue(),
    ;

    /// Multiplies an element of the base field by the non-residue.
    fn mul_base_field_by_nonresidue(fe: &Fp<Self>) -> (r: Fp<Self>)
        requires
            fe.wf(),
        ensures
            r.wf(),
            r.val() == (Self::spec_nonresidue() * fe.val()) % Fp::<Self>::modulus_spec(),
    {
        let nr = Self::nonresidue();
        nr.mul(fe)
    }

    /// Multiplies `c1` and `c2` by the Frobenius coefficients for `power`.
    fn mul_base_field_by_frob_coeff(c1: &mut Fp<Self>, c2: &mut Fp<Self>, power: usize)
        requires
            old(c1).wf(),
            old(c2).wf(),
        ensures
            final(c1).wf(),
            final(c2).wf(),
            final(c1).val() == (old(c1).val() * Self::spec_frob_coeff_c1(power as int))
                % Fp::<Self>::modulus_spec(),
            final(c2).val() == (old(c2).val() * Self::spec_frob_coeff_c2(power as int))
                % Fp::<Self>::modulus_spec(),
    ;
}

/// An element `c0 + c1 X + c2 X^2` of the cubic extension.
#[derive(Debug, PartialEq, Eq, Hash)]
pub struct CubicExtField<P> {
    pub c0: Fp<P>,
    pub c1: Fp<P>,
    pub c2: Fp<P>,
}

impl<P> Copy for CubicExtField<P> {

}

impl<P> Clone for CubicExtField<P> {
    fn clone(&self) -> (r: Self)
        ensures
            r == *self,
    {
        CubicExtField { c0: self.c0, c1: self.c1, c2: self.c2 }
    }
}

/// The modulus of the base field of `P`.
pub open spec fn modulus<P: CubicExtParameters>() -> int {
    P::spec_modulus() as int
}

/// The product in the extension of `P`.
pub open spec fn ext_mul<P: CubicExtParameters>(x: Coeffs, y: Coeffs) -> Coeffs {
    reduce(poly_mul(x, y, P::spec_nonresidue()), modulus::<P>())
}

/// The square in the extension of `P`.
pub open spec fn ext_square<P: CubicExtParameters>(x: Coeffs) -> Coeffs {
    reduce(poly_square(x, P::spec_nonresidue()), modulus::<P>())
}

/// The sum in the extension of `P`.
pub open spec fn ext_add<P: CubicExtParameters>(x: Coeffs, y: Coeffs) -> Coeffs {
    reduce((x.0 + y.0, x.1 + y.1, x.2 + y.2), modulus::<P>())
}

/// The difference in the extension of `P`.
pub open spec fn ext_sub<P: CubicExtParameters>(x: Coeffs, y: Coeffs) -> Coeffs {
    reduce((x.0 - y.0, x.1 - y.1, x.2 - y.2), modulus::<P>())
}

/// The negation in the extension of `P`.
pub open spec fn ext_neg<P: CubicExtParameters>(x: Coeffs) -> Coeffs {
    reduce((-x.0, -x.1, -x.2), modulus::<P>())
}

/// Multiplication by an element `s` of the base field.
pub open spec fn ext_scale<P: CubicExtParameters>(x: Coeffs, s: int) -> Coeffs {
    reduce((x.0 * s, x.1 * s, x.2 * s), modulus::<P>())
}

/// The Frobenius map `x -> x^(p^power)`.
pub open spec fn ext_frobenius<P: CubicExtParameters>(x: Coeffs, power: int) -> Coeffs {
    (
        x.0,
        (x.1 * P::spec_frob_coeff_c1(power)) % modulus::<P>(),
        (x.2 * P::spec_frob_coeff_c2(power)) % modulus::<P>(),
    )
}

/// Coefficients that are reduced residues.
pub open spec fn reduced<P: CubicExtParameters>(x: Coeffs) -> bool {
    let m = modulus::<P>();
    0 <= x.0 < m && 0 <= x.1 < m && 0 <= x.2 < m
}

/// Componentwise congruence modulo `m`.
pub open spec fn congruent3(x: Coeffs, y: Coeffs, m: int) -> bool {
    congruent(x.0, y.0, m) && congruent(x.1, y.1, m) && congruent(x.2, y.2, m)
}

/// The minors used by inversion: `x * minors(x) == (det(x), 0, 0)`.
pub open spec fn inverse_minors(x: Coeffs, nr: int) -> Coeffs {
    (x.0 * x.0 - nr * (x.1 * x.2), nr * (x.2 * x.2) - x.0 * x.1, x.1 * x.1 - x.0 * x.2)
}

/// The determinant `x0 s0 + nr (x2 s1 + x1 s2)` over the minors `s`, an element of the base field.
pub open spec fn inverse_det(x: Coeffs, nr: int) -> int {
    let s = inverse_minors(x, nr);
    x.0 * s.0 + nr * (x.2 * s.1 + x.1 * s.2)
}

/// `poly_mul` respects congruence of its arguments.
pub proof fn lemma_poly_mul_congruent(x: Coeffs, xx: Coeffs, y: Coeffs, yy: Coeffs, nr: int, m: int)
    requires
        m > 0,
        congruent3(x, xx, m),
        congruent3(y, yy, m),
    ensures
        congruent3(poly_mul(x, y, nr), poly_mul(xx, yy, nr), m),
{
    lemma_congruent_mul(x.0, xx.0, y.0, yy.0, m);
    lemma_congruent_mul(x.0, xx.0, y.1, yy.1, m);
    lemma_congruent_mul(x.0, xx.0, y.2, yy.2, m);
    lemma_congruent_mul(x.1, xx.1, y.0, yy.0, m);
    lemma_congruent_mul(x.1, xx.1, y.1, yy.1, m);
    lemma_congruent_mul(x.1, xx.1, y.2, yy.2, m);
    lemma_congruent_mul(x.2, xx.2, y.0, yy.0, m);
    lemma_congruent_mul(x.2, xx.2, y.1, yy.1, m);
    lemma_congruent_mul(x.2, xx.2, y.2, yy.2, m);
    lemma_congruent_add(x.1 * y.2, xx.1 * yy.2, x.2 * y.1, xx.2 * yy.1, m);
    lemma_congruent_mul(nr, nr, x.1 * y.2 + x.2 * y.1, xx.1 * yy.2 + xx.2 * yy.1, m);
    lemma_congruent_add(
        x.0 * y.0,
        xx.0 * yy.0,
        nr * (x.1 * y.2 + x.2 * y.1),
        nr * (xx.1 * yy.2 + xx.2 * yy.1),
        m,
    );
    lemma_congruent_add(x.0 * y.1, xx.0 * yy.1, x.1 * y.0, xx.1 * yy.0, m);
    lemma_congruent_mul(nr, nr, x.2 * y.2, xx.2 * yy.2, m);
    lemma_congruent_add(
        x.0 * y.1 + x.1 * y.0,
        xx.0 * yy.1 + xx.1 * yy.0,
        nr * (x.2 * y.2),
        nr * (xx.2 * yy.2),
        m,
    );
    lemma_congruent_add(x.0 * y.2, xx.0 * yy.2, x.1 * y.1, xx.1 * yy.1, m);
    lemma_congruent_add(
        x.0 * y.2 + x.1 * y.1,
        xx.0 * yy.2 + xx.1 * yy.1,
        x.2 * y.0,
        xx.2 * yy.0,
        m,
    );
}

/// Reduced coefficients are congruent to the unreduced ones.
pub proof fn lemma_reduce_congruent(x: Coeffs, m: int)
    requires
        m > 0,
    ensures
        congruent3(reduce(x, m), x, m),
{
    lemma_congruent_mod(x.0, m);
    lemma_congruent_mod(x.1, m);
    lemma_congruent_mod(x.2, m);
}

/// Congruent residues are invertible together.
pub proof fn lemma_has_inverse_congruent(x: int, xx: int, m: int)
    requires
        m > 0,
        congruent(x, xx, m),
    ensures
        has_inverse(x, m) == has_inverse(xx, m),
{
    if has_inverse(x, m) {
        let y = choose|y: int| #[trigger] (x * y) % m == 1;
        lemma_congruent_mul(x, xx, y, y, m);
        assert((xx * y) % m == 1);
    }
    if has_inverse(xx, m) {
        let y = choose|y: int| #[trigger] (xx * y) % m == 1;
        lemma_congruent_mul(x, xx, y, y, m);
        assert((x * y) % m == 1);
    }
}

/// `i` is what inversion returns for the non-zero `x`: `t * inverse_minors(x)`
/// where `t` inverts `inverse_det(x)`; zero where the determinant has no inverse
/// (only when `X^3 - nonresidue` is reducible).
pub open spec fn inverse_result<P: CubicExtParameters>(x: Coeffs, i: Coeffs) -> bool {
    let m = modulus::<P>();
    let nr = P::spec_nonresidue();
    let s = inverse_minors(x, nr);
    if has_inverse(inverse_det(x, nr), m) {
        exists|t: int|
            (#[trigger] (inverse_det(x, nr) * t)) % m == 1 && i == reduce((t * s.0, t * s.1, t * s.2), m)
    } else {
        i == (0int, 0int, 0int)
    }
}

/// The product `x * x^p * x^(p^2)`, multiplied as `x^p * (x^(p^2) * x)`.
pub open spec fn norm_coeffs<P: CubicExtParameters>(x: Coeffs) -> Coeffs {
    ext_mul::<P>(ext_frobenius::<P>(x, 1), ext_mul::<P>(ext_frobenius::<P>(x, 2), x))
}

/// The norm of `x` has no extension coefficients.
pub open spec fn norm_in_base_field<P: CubicExtParameters>(x: Coeffs) -> bool {
    norm_coeffs::<P>(x).1 == 0 && norm_coeffs::<P>(x).2 == 0
}

/// Lexicographic order, most significant coefficient `c2` first.
pub open spec fn ext_lt(x: Coeffs, y: Coeffs) -> bool {
    x.2 < y.2 || (x.2 == y.2 && (x.1 < y.1 || (x.1 == y.1 && x.0 < y.0)))
}

/// `b` is the byte form of `x`: three runs of eight little-endian bytes.
pub open spec fn bytes_encode(b: Seq<u8>, x: Coeffs) -> bool {
    b.len() == 24 && le_bytes_value(b.subrange(0, 8)) == x.0 && le_bytes_value(b.subrange(8, 16))
        == x.1 && le_bytes_value(b.subrange(16, 24)) == x.2
}

/// The coefficients that the byte form `b` holds, or why it is refused.
pub open spec fn bytes_decode<P: CubicExtParameters>(b: Seq<u8>) -> Result<Coeffs, CodecError> {
    if b.len() != 24 {
        Err(CodecError::BadLength)
    } else {
        let x: Coeffs = (
            le_bytes_value(b.subrange(0, 8)) as int,
            le_bytes_value(b.subrange(8, 16)) as int,
            le_bytes_value(b.subrange(16, 24)) as int,
        );
        if reduced::<P>(x) {
            Ok(x)
        } else {
            Err(CodecError::NotCanonical)
        }
    }
}

/// `b` is the bit form of `x`: three runs of `modulus_bits()` little-endian bits.
pub open spec fn bits_encode<P: CubicExtParameters>(b: Seq<bool>, x: Coeffs) -> bool {
    let n = P::spec_modulus_bits() as int;
    b.len() == 3 * n && le_bits_value(b.subrange(0, n)) == x.0 && le_bits_value(
        b.subrange(n, 2 * n),
    ) == x.1 && le_bits_value(b.subrange(2 * n, 3 * n)) == x.2
}

/// The coefficients that the bit form `b` holds, or why it is refused.
pub open spec fn bits_decode<P: CubicExtParameters>(b: Seq<bool>) -> Result<Coeffs, CodecError> {
    let n = P::spec_modulus_bits() as int;
    if b.len() != 3 * n {
        Err(CodecError::BadLength)
    } else {
        let x: Coeffs = (
            le_bits_value(b.subrange(0, n)) as int,
            le_bits_value(b.subrange(n, 2 * n)) as int,
            le_bits_value(b.subrange(2 * n, 3 * n)) as int,
        );
        if reduced::<P>(x) {
            Ok(x)
        } else {
            Err(CodecError::NotCanonical)
        }
    }
}

/// Appends `src` to `out`.
fn append_all<T: Copy>(out: &mut Vec<T>, src: &Vec<T>)
    ensures
        final(out)@ == old(out)@ + src@,
{
    let mut i: usize = 0;
    while i < src.len()
        invariant
            i <= src@.len(),
            out@ == old(out)@ + src@.subrange(0, i as int),
        decreases src@.len() - i,
    {
        out.push(src[i]);
        i = i + 1;
        proof {
            assert(src@.subrange(0, i as int) =~= src@.subrange(0, i - 1) + seq![src@[i - 1]]);
        }
    }
    proof {
        assert(src@.subrange(0, src@.len() as int) =~= src@);
    }
}

/// The elements of `s` from `lo` up to `hi`.
fn copy_range<T: Copy>(s: &Vec<T>, lo: usize, hi: usize) -> (r: Vec<T>)
    requires
        lo <= hi <= s@.len(),
    ensures
        r@ == s@.subrange(lo as int, hi as int),
{
    let mut out: Vec<T> = Vec::new();
    let mut i: usize = lo;
    while i < hi
        invariant
            lo <= i <= hi,
            hi <= s@.len(),
            out@ == s@.subrange(lo as int, i as int),
        decreases hi - i,
    {
        out.push(s[i]);
        i = i + 1;
        proof {
            assert(out@ =~= s@.subrange(lo as int, i as int));
        }
    }
    out
}

impl<P: CubicExtParameters> CubicExtField<P> {
    /// Every coefficient is a reduced residue.
    pub open spec fn wf(&self) -> bool {
        self.c0.wf() && self.c1.wf() && self.c2.wf()
    }

    pub open spec fn coeffs(&self) -> Coeffs {
        (self.c0.val(), self.c1.val(), self.c2.val())
    }

    pub fn new(c0: Fp<P>, c1: Fp<P>, c2: Fp<P>) -> (r: Self)
        ensures
            r.c0 == c0,
            r.c1 == c1,
            r.c2 == c2,
    {
        CubicExtField { c0, c1, c2 }
    }

    /// Multiplies in place, by Karatsuba's method with six base-field products.
    pub fn mul_assign(&mut self, other: &Self)
        requires
            old(self).wf(),
            other.wf(),
        ensures
            final(self).wf(),
            final(self).coeffs() == ext_mul::<P>(old(self).coeffs(), other.coeffs()),
    {
        let ghost m = modulus::<P>();
        let ghost nr = P::spec_nonresidue();
        let a = other.c0;
        let b = other.c1;
        let c = other.c2;
        let d = self.c0;
        let e = self.c1;
        let f = self.c2;
        let ghost (av, bv, cv, dv, ev, fv) = (a.val(), b.val(), c.val(), d.val(), e.val(), f.val());

        let ad = d.mul(&a);
        let be = e.mul(&b);
        let cf = f.mul(&c);

        let ef = e.add(&f);
        let bc = b.add(&c);
        let x1 = ef.mul(&bc);
        let x2 = x1.sub(&be);
        let x = x2.sub(&cf);

        let de = d.add(&e);
        let ab = a.add(&b);
        let y1 = de.mul(&ab);
        let y2 = y1.sub(&ad);
        let y = y2.sub(&be);

        let df = d.add(&f);
        let ac = a.add(&c);
        let z1 = df.mul(&ac);
        let z2 = z1.sub(&ad);
        let z3 = z2.add(&be);
        let z = z3.sub(&cf);

        let nx = P::mul_base_field_by_nonresidue(&x);
        let ncf = P::mul_base_field_by_nonresidue(&cf);
        let r0 = ad.add(&nx);
        let r1 = y.add(&ncf);
        proof {
            lemma_step_mul(ad.val(), dv, av, dv, av, m);
            lemma_step_mul(be.val(), ev, bv, ev, bv, m);
            lemma_step_mul(cf.val(), fv, cv, fv, cv, m);
            lemma_step_add(ef.val(), ev, fv, ev, fv, m);
            lemma_step_add(bc.val(), bv, cv, bv, cv, m);
            lemma_step_mul(x1.val(), ef.val(), bc.val(), ev + fv, bv + cv, m);
            lemma_step_sub(x2.val(), x1.val(), be.val(), (ev + fv) * (bv + cv), ev * bv, m);
            lemma_step_sub(
                x.val(),
                x2.val(),
                cf.val(),
                (ev + fv) * (bv + cv) - ev * bv,
                fv * cv,
                m,
            );
            assert((ev + fv) * (bv + cv) - ev * bv - fv * cv == ev * cv + fv * bv)
                by (nonlinear_arith);
            lemma_step_add(de.val(), dv, ev, dv, ev, m);
            lemma_step_add(ab.val(), av, bv, av, bv, m);
            lemma_step_mul(y1.val(), de.val(), ab.val(), dv + ev, av + bv, m);
            lemma_step_sub(y2.val(), y1.val(), ad.val(), (dv + ev) * (av + bv), dv * av, m);
            lemma_step_sub(
                y.val(),
                y2.val(),
                be.val(),
                (dv + ev) * (av + bv) - dv * av,
                ev * bv,
                m,
            );
            assert((dv + ev) * (av + bv) - dv * av - ev * bv == dv * bv + ev * av)
                by (nonlinear_arith);
            lemma_step_add(df.val(), dv, fv, dv, fv, m);
            lemma_step_add(ac.val(), av, cv, av, cv, m);
            lemma_step_mul(z1.val(), df.val(), ac.val(), dv + fv, av + cv, m);
            lemma_step_sub(z2.val(), z1.val(), ad.val(), (dv + fv) * (av + cv), dv * av, m);
            lemma_step_add(
                z3.val(),
                z2.val(),
                be.val(),
                (dv + fv) * (av + cv) - dv * av,
                ev * bv,
                m,
            );
            lemma_step_sub(
                z.val(),
                z3.val(),
                cf.val(),
                (dv + fv) * (av + cv) - dv * av + ev * bv,
                fv * cv,
                m,
            );
            assert((dv + fv) * (av + cv) - dv * av + ev * bv - fv * cv == dv * cv + ev * bv + fv
                * av) by (nonlinear_arith);
            lemma_step_mul(nx.val(), nr, x.val(), nr, ev * cv + fv * bv, m);
            lemma_step_mul(ncf.val(), nr, cf.val(), nr, fv * cv, m);
            lemma_step_add(r0.val(), ad.val(), nx.val(), dv * av, nr * (ev * cv + fv * bv), m);
            lemma_step_add(r1.val(), y.val(), ncf.val(), dv * bv + ev * av, nr * (fv * cv), m);
            let pm = poly_mul((dv, ev, fv), (av, bv, cv), nr);
            assert(pm.0 == dv * av + nr * (ev * cv + fv * bv));
            assert(pm.1 == dv * bv + ev * av + nr * (fv * cv));
            assert(pm.2 == dv * cv + ev * bv + fv * av);
            lemma_congruent_reduced(r0.val(), pm.0, m);
            lemma_congruent_reduced(r1.val(), pm.1, m);
            lemma_congruent_reduced(z.val(), pm.2, m);
        }
        self.c0 = r0;
        self.c1 = r1;
        self.c2 = z;
    }

    /// The product, by Karatsuba's method.
    pub fn mul(&self, other: &Self) -> (r: Self)
        requires
            self.wf(),
            other.wf(),
        ensures
            r.wf(),
            r.coeffs() == ext_mul::<P>(self.coeffs(), other.coeffs()),
    {
        let mut result = *self;
        result.mul_assign(other);
        result
    }

    /// Squares in place, by the CH-SQR2 method with five base-field products.
    pub fn square_in_place(&mut self)
        requires
            old(self).wf(),
        ensures
            final(self).wf(),
            final(self).coeffs() == ext_square::<P>(old(self).coeffs()),
    {
        let ghost m = modulus::<P>();
        let ghost nr = P::spec_nonresidue();
        let a = self.c0;
        let b = self.c1;
        let c = self.c2;
        let ghost (av, bv, cv) = (a.val(), b.val(), c.val());

        let s0 = a.square();
        let ab = a.mul(&b);
        let s1 = ab.double();
        let amb = a.sub(&b);
        let ambc = amb.add(&c);
        let s2 = ambc.square();
        let bc = b.mul(&c);
        let s3 = bc.double();
        let s4 = c.square();

        let ns3 = P::mul_base_field_by_nonresidue(&s3);
        let ns4 = P::mul_base_field_by_nonresidue(&s4);
        let r0 = s0.add(&ns3);
        let r1 = s1.add(&ns4);
        let t1 = s1.add(&s2);
        let t2 = t1.add(&s3);
        let t3 = t2.sub(&s0);
        let r2 = t3.sub(&s4);
        proof {
            lemma_step_mul(s0.val(), av, av, av, av, m);
            lemma_step_mul(ab.val(), av, bv, av, bv, m);
            lemma_step_add(s1.val(), ab.val(), ab.val(), av * bv, av * bv, m);
            lemma_step_sub(amb.val(), av, bv, av, bv, m);
            lemma_step_add(ambc.val(), amb.val(), cv, av - bv, cv, m);
            lemma_step_mul(s2.val(), ambc.val(), ambc.val(), av - bv + cv, av - bv + cv, m);
            lemma_step_mul(bc.val(), bv, cv, bv, cv, m);
            lemma_step_add(s3.val(), bc.val(), bc.val(), bv * cv, bv * cv, m);
            lemma_step_mul(s4.val(), cv, cv, cv, cv, m);
            lemma_step_mul(ns3.val(), nr, s3.val(), nr, bv * cv + bv * cv, m);
            lemma_step_mul(ns4.val(), nr, s4.val(), nr, cv * cv, m);
            lemma_step_add(r0.val(), s0.val(), ns3.val(), av * av, nr * (bv * cv + bv * cv), m);
            lemma_step_add(r1.val(), s1.val(), ns4.val(), av * bv + av * bv, nr * (cv * cv), m);
            let sq = (av - bv + cv) * (av - bv + cv);
            lemma_step_add(t1.val(), s1.val(), s2.val(), av * bv + av * bv, sq, m);
            lemma_step_add(t2.val(), t1.val(), s3.val(), av * bv + av * bv + sq, bv * cv + bv * cv, m);
            lemma_step_sub(
                t3.val(),
                t2.val(),
                s0.val(),
                av * bv + av * bv + sq + (bv * cv + bv * cv),
                av * av,
                m,
            );
            lemma_step_sub(
                r2.val(),
                t3.val(),
                s4.val(),
                av * bv + av * bv + sq + (bv * cv + bv * cv) - av * av,
                cv * cv,
                m,
            );
            assert(av * bv + av * bv + sq + (bv * cv + bv * cv) - av * av - cv * cv == 2 * (av
                * cv) + bv * bv) by (nonlinear_arith)
                requires
                    sq == (av - bv + cv) * (av - bv + cv),
            ;
            let ps = poly_square((av, bv, cv), nr);
            assert(ps.0 == av * av + nr * (bv * cv + bv * cv)) by (nonlinear_arith)
                requires
                    ps == poly_square((av, bv, cv), nr),
            ;
            assert(ps.1 == av * bv + av * bv + nr * (cv * cv));
            lemma_congruent_reduced(r0.val(), ps.0, m);
            lemma_congruent_reduced(r1.val(), ps.1, m);
            lemma_congruent_reduced(r2.val(), ps.2, m);
        }
        self.c0 = r0;
        self.c1 = r1;
        self.c2 = r2;
    }

    /// The square, by the CH-SQR2 method.
    pub fn square(&self) -> (r: Self)
        requires
            self.wf(),
        ensures
            r.wf(),
            r.coeffs() == ext_square::<P>(self.coeffs()),
    {
        let mut result = *self;
        result.square_in_place();
        result
    }

    /// The inverse, with a single base-field inversion; `None` exactly for zero.
    pub fn inverse(&self) -> (r: Option<Self>)
        requires
            self.wf(),
        ensures
            r is None <==> self.coeffs() == (0int, 0int, 0int),
            r matches Some(i) ==> i.wf() && inverse_result::<P>(self.coeffs(), i.coeffs()),
    {
        if self.is_zero() {
            return None;
        }
        let ghost m = modulus::<P>();
        let ghost nr = P::spec_nonresidue();
        let ghost (x0, x1, x2) = self.coeffs();
        let t0 = self.c0.square();
        let t1 = self.c1.square();
        let t2 = self.c2.square();
        let t3 = self.c0.mul(&self.c1);
        let t4 = self.c0.mul(&self.c2);
        let t5 = self.c1.mul(&self.c2);
        let n5 = P::mul_base_field_by_nonresidue(&t5);
        let s0 = t0.sub(&n5);
        let n2 = P::mul_base_field_by_nonresidue(&t2);
        let s1 = n2.sub(&t3);
        let s2 = t1.sub(&t4);
        let a1 = self.c2.mul(&s1);
        let a2 = self.c1.mul(&s2);
        let a12 = a1.add(&a2);
        let a3 = P::mul_base_field_by_nonresidue(&a12);
        let b0 = self.c0.mul(&s0);
        let t6 = b0.add(&a3);
        let ghost s = inverse_minors(self.coeffs(), nr);
        proof {
            lemma_step_mul(t0.val(), x0, x0, x0, x0, m);
            lemma_step_mul(t1.val(), x1, x1, x1, x1, m);
            lemma_step_mul(t2.val(), x2, x2, x2, x2, m);
            lemma_step_mul(t3.val(), x0, x1, x0, x1, m);
            lemma_step_mul(t4.val(), x0, x2, x0, x2, m);
            lemma_step_mul(t5.val(), x1, x2, x1, x2, m);
            lemma_step_mul(n5.val(), nr, t5.val(), nr, x1 * x2, m);
            lemma_step_sub(s0.val(), t0.val(), n5.val(), x0 * x0, nr * (x1 * x2), m);
            lemma_step_mul(n2.val(), nr, t2.val(), nr, x2 * x2, m);
            lemma_step_sub(s1.val(), n2.val(), t3.val(), nr * (x2 * x2), x0 * x1, m);
            lemma_step_sub(s2.val(), t1.val(), t4.val(), x1 * x1, x0 * x2, m);
            lemma_step_mul(a1.val(), x2, s1.val(), x2, s.1, m);
            lemma_step_mul(a2.val(), x1, s2.val(), x1, s.2, m);
            lemma_step_add(a12.val(), a1.val(), a2.val(), x2 * s.1, x1 * s.2, m);
            lemma_step_mul(a3.val(), nr, a12.val(), nr, x2 * s.1 + x1 * s.2, m);
            lemma_step_mul(b0.val(), x0, s0.val(), x0, s.0, m);
            lemma_step_add(t6.val(), b0.val(), a3.val(), x0 * s.0, nr * (x2 * s.1 + x1 * s.2), m);
            lemma_has_inverse_congruent(t6.val(), inverse_det(self.coeffs(), nr), m);
        }
        match t6.inverse() {
            Some(u) => {
                let c0 = u.mul(&s0);
                let c1 = u.mul(&s1);
                let c2 = u.mul(&s2);
                proof {
                    let d = inverse_det(self.coeffs(), nr);
                    let t = u.val();
                    lemma_congruent_mul(t6.val(), d, t, t, m);
                    assert((t6.val() * t) % m == 1);
                    assert((d * t) % m == 1);
                    lemma_step_mul(c0.val(), t, s0.val(), t, s.0, m);
                    lemma_step_mul(c1.val(), t, s1.val(), t, s.1, m);
                    lemma_step_mul(c2.val(), t, s2.val(), t, s.2, m);
                    lemma_congruent_reduced(c0.val(), t * s.0, m);
                    lemma_congruent_reduced(c1.val(), t * s.1, m);
                    lemma_congruent_reduced(c2.val(), t * s.2, m);
                }
                Some(Self::new(c0, c1, c2))
            },
            None => Some(Self::zero()),
        }
    }

    /// Replaces a non-zero element by its inverse; leaves zero unchanged.
    pub fn inverse_in_place(&mut self) -> (r: bool)
        requires
            old(self).wf(),
        ensures
            r == (old(self).coeffs() != (0int, 0int, 0int)),
            r ==> final(self).wf() && inverse_result::<P>(old(self).coeffs(), final(self).coeffs()),
            !r ==> *final(self) == *old(self),
    {
        match self.inverse() {
            Some(i) => {
                *self = i;
                true
            },
            None => false,
        }
    }

    pub fn zero() -> (r: Self)
        ensures
            r.wf(),
            r.coeffs() == (0int, 0int, 0int),
    {
        CubicExtField { c0: Fp::zero(), c1: Fp::zero(), c2: Fp::zero() }
    }

    pub fn one() -> (r: Self)
        ensures
            r.wf(),
            r.coeffs() == (1int, 0int, 0int),
    {
        CubicExtField { c0: Fp::one(), c1: Fp::zero(), c2: Fp::zero() }
    }

    pub fn is_zero(&self) -> (r: bool)
        ensures
            r == (self.coeffs() == (0int, 0int, 0int)),
    {
        self.c0.is_zero() && self.c1.is_zero() && self.c2.is_zero()
    }

    pub fn is_one(&self) -> (r: bool)
        ensures
            r == (self.coeffs() == (1int, 0int, 0int)),
    {
        self.c0.is_one() && self.c1.is_zero() && self.c2.is_zero()
    }

    /// The sign bit: the parity of the most significant non-zero coefficient.
    pub fn is_odd(&self) -> (r: bool)
        ensures
            r == (self.c2.val() % 2 == 1 || (self.c2.val() == 0 && self.c1.val() % 2 == 1) || (
            self.c2.val() == 0 && self.c1.val() == 0 && self.c0.val() % 2 == 1)),
    {
        self.c2.is_odd() || (self.c2.is_zero() && self.c1.is_odd()) || (self.c2.is_zero()
            && self.c1.is_zero() && self.c0.is_odd())
    }

    /// The characteristic `p` of the field.
    pub fn characteristic() -> (r: u64)
        ensures
            r == modulus::<P>(),
    {
        P::modulus()
    }

    /// The element `v mod p` of the base field, embedded.
    pub fn from_u64(v: u64) -> (r: Self)
        ensures
            r.wf(),
            r.coeffs() == (v as int % modulus::<P>(), 0int, 0int),
    {
        CubicExtField { c0: Fp::from_u64(v), c1: Fp::zero(), c2: Fp::zero() }
    }

    pub fn add_assign(&mut self, other: &Self)
        requires
            old(self).wf(),
            other.wf(),
        ensures
            final(self).wf(),
            final(self).coeffs() == ext_add::<P>(old(self).coeffs(), other.coeffs()),
    {
        self.c0 = self.c0.add(&other.c0);
        self.c1 = self.c1.add(&other.c1);
        self.c2 = self.c2.add(&other.c2);
    }

    pub fn sub_assign(&mut self, other: &Self)
        requires
            old(self).wf(),
            other.wf(),
        ensures
            final(self).wf(),
            final(self).coeffs() == ext_sub::<P>(old(self).coeffs(), other.coeffs()),
    {
        self.c0 = self.c0.sub(&other.c0);
        self.c1 = self.c1.sub(&other.c1);
        self.c2 = self.c2.sub(&other.c2);
    }

    pub fn add(&self, other: &Self) -> (r: Self)
        requires
            self.wf(),
            other.wf(),
        ensures
            r.wf(),
            r.coeffs() == ext_add::<P>(self.coeffs(), other.coeffs()),
    {
        let mut result = *self;
        result.add_assign(other);
        result
    }

    pub fn sub(&self, other: &Self) -> (r: Self)
        requires
            self.wf(),
            other.wf(),
        ensures
            r.wf(),
            r.coeffs() == ext_sub::<P>(self.coeffs(), other.coeffs()),
    {
        let mut result = *self;
        result.sub_assign(other);
        result
    }

    pub fn neg(&self) -> (r: Self)
        requires
            self.wf(),
        ensures
            r.wf(),
            r.coeffs() == ext_neg::<P>(self.coeffs()),
    {
        CubicExtField { c0: self.c0.neg(), c1: self.c1.neg(), c2: self.c2.neg() }
    }

    pub fn double_in_place(&mut self)
        requires
            old(self).wf(),
        ensures
            final(self).wf(),
            final(self).coeffs() == ext_add::<P>(old(self).coeffs(), old(self).coeffs()),
    {
        self.c0 = self.c0.double();
        self.c1 = self.c1.double();
        self.c2 = self.c2.double();
    }

    pub fn double(&self) -> (r: Self)
        requires
            self.wf(),
        ensures
            r.wf(),
            r.coeffs() == ext_add::<P>(self.coeffs(), self.coeffs()),
    {
        let mut result = *self;
        result.double_in_place();
        result
    }

    /// Multiplies every coefficient by the base-field element `value`.
    pub fn mul_assign_by_basefield(&mut self, value: &Fp<P>)
        requires
            old(self).wf(),
            value.wf(),
        ensures
            final(self).wf(),
            final(self).coeffs() == ext_scale::<P>(old(self).coeffs(), value.val()),
    {
        self.c0 = self.c0.mul(value);
        self.c1 = self.c1.mul(value);
        self.c2 = self.c2.mul(value);
    }

    /// Divides by a non-zero element: multiplies by its inverse.
    pub fn div(&self, other: &Self) -> (r: Self)
        requires
            self.wf(),
            other.wf(),
            other.coeffs() != (0int, 0int, 0int),
        ensures
            r.wf(),
            exists|i: Coeffs|
                inverse_result::<P>(other.coeffs(), i) && reduced::<P>(i) && #[trigger] ext_mul::<P>(
                    self.coeffs(),
                    i,
                ) == r.coeffs(),
    {
        match other.inverse() {
            Some(i) => self.mul(&i),
            None => Self::zero(),
        }
    }

    /// Applies the Frobenius map `x -> x^(p^power)`.
    pub fn frobenius_map(&mut self, power: usize)
        requires
            old(self).wf(),
        ensures
            final(self).wf(),
            final(self).coeffs() == ext_frobenius::<P>(old(self).coeffs(), power as int),
    {
        self.c0.frobenius_map(power);
        self.c1.frobenius_map(power);
        self.c2.frobenius_map(power);
        P::mul_base_field_by_frob_coeff(&mut self.c1, &mut self.c2, power);
    }

    /// The norm `x * x^p * x^(p^2)`, an element of the base field. Its extension
    /// coefficients vanish for a consistent parameter set, which is required.
    pub fn norm(&self) -> (r: Fp<P>)
        requires
            self.wf(),
            norm_in_base_field::<P>(self.coeffs()),
        ensures
            r.wf(),
            r.val() == norm_coeffs::<P>(self.coeffs()).0,
    {
        let mut self_to_p = *self;
        self_to_p.frobenius_map(1);
        let mut self_to_p2 = *self;
        self_to_p2.frobenius_map(2);
        let rest = self_to_p2.mul(self);
        self_to_p.mul_assign(&rest);
        self_to_p.c0
    }

    /// Compares lexicographically, `c2` first, then `c1`, then `c0`.
    pub fn cmp(&self, other: &Self) -> (r: core::cmp::Ordering)
        ensures
            (r == core::cmp::Ordering::Less) == ext_lt(self.coeffs(), other.coeffs()),
            (r == core::cmp::Ordering::Equal) == (self.coeffs() == other.coeffs()),
            (r == core::cmp::Ordering::Greater) == ext_lt(other.coeffs(), self.coeffs()),
    {
        let c2_cmp = self.c2.cmp(&other.c2);
        let c1_cmp = self.c1.cmp(&other.c1);
        let c0_cmp = self.c0.cmp(&other.c0);
        match c2_cmp {
            core::cmp::Ordering::Equal => match c1_cmp {
                core::cmp::Ordering::Equal => c0_cmp,
                _ => c1_cmp,
            },
            _ => c2_cmp,
        }
    }

    /// The element whose coefficients `c0`, `c1`, `c2` are the residues of the
    /// random draws `x0`, `x1`, `x2`.
    pub fn from_random(x0: u128, x1: u128, x2: u128) -> (r: Self)
        ensures
            r.wf(),
            r.coeffs() == (
                x0 as int % modulus::<P>(),
                x1 as int % modulus::<P>(),
                x2 as int % modulus::<P>(),
            ),
    {
        CubicExtField { c0: Fp::from_random(x0), c1: Fp::from_random(x1), c2: Fp::from_random(x2) }
    }

    /// Draws three numbers of 128 bits from the thread-local generator, for `c0`,
    /// `c1` and `c2` in that order, and reduces each into the base field.
    pub fn sample() -> (r: Self)
        ensures
            r.wf(),
    {
        let x0: u128 = rand::random::<u128>();
        let x1: u128 = rand::random::<u128>();
        let x2: u128 = rand::random::<u128>();
        Self::from_random(x0, x1, x2)
    }

    /// The bytes of `c0`, `c1` and `c2`, eight little-endian bytes each.
    pub fn to_bytes(&self) -> (r: Vec<u8>)
        ensures
            bytes_encode(r@, self.coeffs()),
    {
        let mut out = self.c0.to_bytes();
        let b1 = self.c1.to_bytes();
        let b2 = self.c2.to_bytes();
        let ghost (s0, s1, s2) = (out@, b1@, b2@);
        append_all(&mut out, &b1);
        append_all(&mut out, &b2);
        proof {
            assert(out@.subrange(0, 8) =~= s0);
            assert(out@.subrange(8, 16) =~= s1);
            assert(out@.subrange(16, 24) =~= s2);
        }
        out
    }

    /// Reads the form written by `to_bytes`.
    pub fn from_bytes(b: &Vec<u8>) -> (r: Result<Self, CodecError>)
        ensures
            match bytes_decode::<P>(b@) {
                Ok(x) => r matches Ok(v) && v.wf() && v.coeffs() == x,
                Err(e) => r == Err::<Self, CodecError>(e),
            },
    {
        if b.len() != 24 {
            return Err(CodecError::BadLength);
        }
        let b0 = copy_range(b, 0, 8);
        let b1 = copy_range(b, 8, 16);
        let b2 = copy_range(b, 16, 24);
        let c0 = Fp::from_bytes(&b0);
        let c1 = Fp::from_bytes(&b1);
        let c2 = Fp::from_bytes(&b2);
        match (c0, c1, c2) {
            (Ok(c0), Ok(c1), Ok(c2)) => Ok(Self::new(c0, c1, c2)),
            _ => Err(CodecError::NotCanonical),
        }
    }

    /// The bits of `c0`, `c1` and `c2`, `modulus_bits()` little-endian bits each.
    pub fn to_bits(&self) -> (r: Vec<bool>)
        requires
            self.wf(),
        ensures
            bits_encode::<P>(r@, self.coeffs()),
    {
        let n = P::modulus_bits();
        let mut out = self.c0.to_bits();
        let b1 = self.c1.to_bits();
        let b2 = self.c2.to_bits();
        let ghost (s0, s1, s2) = (out@, b1@, b2@);
        append_all(&mut out, &b1);
        append_all(&mut out, &b2);
        proof {
            assert(out@.subrange(0, n as int) =~= s0);
            assert(out@.subrange(n as int, 2 * n) =~= s1);
            assert(out@.subrange(2 * n, 3 * n) =~= s2);
        }
        out
    }

    /// Reads the form written by `to_bits`.
    pub fn from_bits(b: &Vec<bool>) -> (r: Result<Self, CodecError>)
        ensures
            match bits_decode::<P>(b@) {
                Ok(x) => r matches Ok(v) && v.wf() && v.coeffs() == x,
                Err(e) => r == Err::<Self, CodecError>(e),
            },
    {
        let n = P::modulus_bits();
        if b.len() != 3 * n {
            return Err(CodecError::BadLength);
        }
        let b0 = copy_range(b, 0, n);
        let b1 = copy_range(b, n, 2 * n);
        let b2 = copy_range(b, 2 * n, 3 * n);
        let c0 = Fp::from_bits(&b0);
        let c1 = Fp::from_bits(&b1);
        let c2 = Fp::from_bits(&b2);
        match (c0, c1, c2) {
            (Ok(c0), Ok(c1), Ok(c2)) => Ok(Self::new(c0, c1, c2)),
            _ => Err(CodecError::NotCanonical),
        }
    }
}

/// Orders as `cmp` does: lexicographically, `c2` first.
impl<P: CubicExtParameters + PartialEq> PartialOrd for CubicExtField<P> {
    fn partial_cmp(&self, other: &Self) -> (r: Option<core::cmp::Ordering>) {
        Some(self.cmp(other))
    }
}

impl<P: CubicExtParameters + PartialEq> vstd::std_specs::cmp::PartialOrdSpecImpl for CubicExtField<P> {
    open spec fn obeys_partial_cmp_spec() -> bool {
        true
    }

    open spec fn partial_cmp_spec(&self, other: &Self) -> Option<core::cmp::Ordering> {
        if ext_lt(self.coeffs(), other.coeffs()) {
            Some(core::cmp::Ordering::Less)
        } else if self.coeffs() == other.coeffs() {
            Some(core::cmp::Ordering::Equal)
        } else {
            Some(core::cmp::Ordering::Greater)
        }
    }
}

/// The element `(v mod p, 0, 0)` of the base field, embedded.
pub open spec fn embed<P: CubicExtParameters>(v: int) -> CubicExtField<P> {
    CubicExtField {
        c0: Fp { value: (v % modulus::<P>()) as u64, _params: core::marker::PhantomData },
        c1: Fp { value: 0, _params: core::marker::PhantomData },
        c2: Fp { value: 0, _params: core::marker::PhantomData },
    }
}

impl<P: CubicExtParameters> From<u64> for CubicExtField<P> {
    fn from(v: u64) -> (r: Self) {
        CubicExtField { c0: Fp::from_u64(v), c1: Fp::zero(), c2: Fp::zero() }
    }
}

impl<P: CubicExtParameters> vstd::std_specs::convert::FromSpecImpl<u64> for CubicExtField<P> {
    open spec fn obeys_from_spec() -> bool {
        true
    }

    open spec fn from_spec(v: u64) -> Self {
        embed::<P>(v as int)
    }
}

impl<P: CubicExtParameters> From<u8> for CubicExtField<P> {
    fn from(v: u8) -> (r: Self) {
        CubicExtField { c0: Fp::from_u64(v as u64), c1: Fp::zero(), c2: Fp::zero() }
    }
}

impl<P: CubicExtParameters> vstd::std_specs::convert::FromSpecImpl<u8> for CubicExtField<P> {
    open spec fn obeys_from_spec() -> bool {
        true
    }

    open spec fn from_spec(v: u8) -> Self {
        embed::<P>(v as int)
    }
}

impl<P: CubicExtParameters> From<u16> for CubicExtField<P> {
    fn from(v: u16) -> (r: Self) {
        CubicExtField { c0: Fp::from_u64(v as u64), c1: Fp::zero(), c2: Fp::zero() }
    }
}

impl<P: CubicExtParameters> vstd::std_specs::convert::FromSpecImpl<u16> for CubicExtField<P> {
    open spec fn obeys_from_spec() -> bool {
        true
    }

    open spec fn from_spec(v: u16) -> Self {
        embed::<P>(v as int)
    }
}

impl<P: CubicExtParameters> From<u32> for CubicExtField<P> {
    fn from(v: u32) -> (r: Self) {
        CubicExtField { c0: Fp::from_u64(v as u64), c1: Fp::zero(), c2: Fp::zero() }
    }
}

impl<P: CubicExtParameters> vstd::std_specs::convert::FromSpecImpl<u32> for CubicExtField<P> {
    open spec fn obeys_from_spec() -> bool {
        true
    }

    open spec fn from_spec(v: u32) -> Self {
        embed::<P>(v as int)
    }
}

impl<P: CubicExtParameters> From<u128> for CubicExtField<P> {
    fn from(v: u128) -> (r: Self) {
        CubicExtField { c0: Fp::from_random(v), c1: Fp::zero(), c2: Fp::zero() }
    }
}

impl<P: CubicExtParameters> vstd::std_specs::convert::FromSpecImpl<u128> for CubicExtField<P> {
    open spec fn obeys_from_spec() -> bool {
        true
    }

    open spec fn from_spec(v: u128) -> Self {
        embed::<P>(v as int)
    }
}

} // verus!
