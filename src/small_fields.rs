use vstd::prelude::*;

use crate::cubic_extension::CubicExtParameters;
use crate::digits::pow_two;
use crate::fp::{Fp, FpParameters};
use crate::laws::frobenius_coefficients_consistent;

verus! {

/// `Z/13` extended by `X^3 - 5`. Five is a cube modulo 13, so this extension is
/// a ring with zero divisors, not a field, and its Frobenius coefficients are all one.
#[derive(Clone, Copy, Debug, PartialEq, Eq, Hash)]
pub struct F13Nr5;

/// `Z/13` extended by `X^3 - 2`, a field of `13^3` elements. The primitive cube
/// root of unity `3 = 2^4` gives the Frobenius coefficients.
#[derive(Clone, Copy, Debug, PartialEq, Eq, Hash)]
pub struct F13Nr2;

/// The modulus shared by both parameter sets.
pub const MODULUS_13: u64 = 13;

proof fn lemma_thirteen_fits()
    ensures
        13 <= pow_two(4),
{
    reveal_with_fuel(pow_two, 5);
}

impl FpParameters for F13Nr5 {
    open spec fn spec_modulus() -> nat {
        13
    }

    open spec fn spec_modulus_bits() -> nat {
        4
    }

    fn modulus() -> (r: u64) {
        MODULUS_13
    }

    proof fn lemma_modulus_pos() {
    }

    fn modulus_bits() -> (r: usize) {
        proof {
            lemma_thirteen_fits();
        }
        4
    }
}

impl CubicExtParameters for F13Nr5 {
    open spec fn spec_nonresidue() -> int {
        5
    }

    open spec fn spec_frob_coeff_c1(power: int) -> int {
        1
    }

    open spec fn spec_frob_coeff_c2(power: int) -> int {
        1
    }

    fn nonresidue() -> (r: Fp<Self>) {
        let r = Fp::from_u64(5);
        assert(5int % 13 == 5);
        r
    }

    fn mul_base_field_by_frob_coeff(c1: &mut Fp<Self>, c2: &mut Fp<Self>, power: usize) {
        let one = Fp::<Self>::one();
        *c1 = c1.mul(&one);
        *c2 = c2.mul(&one);
    }
}

/// The Frobenius coefficient `3^k` of `c1` for `x -> x^(13^k)`, `k = power mod 3`.
pub open spec fn f13_frob_c1(power: int) -> int {
    if power % 3 == 0 {
        1
    } else if power % 3 == 1 {
        3
    } else {
        9
    }
}

/// The Frobenius coefficient `9^k` of `c2` for `x -> x^(13^k)`, `k = power mod 3`.
pub open spec fn f13_frob_c2(power: int) -> int {
    if power % 3 == 0 {
        1
    } else if power % 3 == 1 {
        9
    } else {
        3
    }
}

impl FpParameters for F13Nr2 {
    open spec fn spec_modulus() -> nat {
        13
    }

    open spec fn spec_modulus_bits() -> nat {
        4
    }

    fn modulus() -> (r: u64) {
        MODULUS_13
    }

    proof fn lemma_modulus_pos() {
    }

    fn modulus_bits() -> (r: usize) {
        proof {
            lemma_thirteen_fits();
        }
        4
    }
}

impl CubicExtParameters for F13Nr2 {
    open spec fn spec_nonresidue() -> int {
        2
    }

    open spec fn spec_frob_coeff_c1(power: int) -> int {
        f13_frob_c1(power)
    }

    open spec fn spec_frob_coeff_c2(power: int) -> int {
        f13_frob_c2(power)
    }

    fn nonresidue() -> (r: Fp<Self>) {
        let r = Fp::from_u64(2);
        assert(2int % 13 == 2);
        r
    }

    fn mul_base_field_by_frob_coeff(c1: &mut Fp<Self>, c2: &mut Fp<Self>, power: usize) {
        let k = power % 3;
        let a: u64 = if k == 0 {
            1
        } else if k == 1 {
            3
        } else {
            9
        };
        let b: u64 = if k == 0 {
            1
        } else if k == 1 {
            9
        } else {
            3
        };
        let fa = Fp::<Self>::from_u64(a);
        let fb = Fp::<Self>::from_u64(b);
        assert(1int % 13 == 1 && 3int % 13 == 3 && 9int % 13 == 9);
        assert(fa.val() == f13_frob_c1(power as int));
        assert(fb.val() == f13_frob_c2(power as int));
        *c1 = c1.mul(&fa);
        *c2 = c2.mul(&fb);
    }
}

/// The Frobenius coefficients of `F13Nr2` come from the primitive cube root of
/// unity three, so its norms lie in the base field and its Frobenius map for
/// power one has period three.
pub proof fn lemma_f13_nr2_frobenius_consistent()
    ensures
        frobenius_coefficients_consistent::<F13Nr2>(),
        (3int * 3 * 3) % 13 == 1,
        (9int * 9 * 9) % 13 == 1,
        F13Nr2::spec_frob_coeff_c1(1) == 3,
        F13Nr2::spec_frob_coeff_c2(1) == 9,
{
    assert(9int % 13 == 9 && 3int % 13 == 3 && 13int % 13 == 0);
}

} // verus!
