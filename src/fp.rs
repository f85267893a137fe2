use core::marker::PhantomData;
use vstd::arithmetic::div_mod::{lemma_add_mod_noop, lemma_mul_mod_noop, lemma_sub_mod_noop};
use vstd::prelude::*;

use crate::digits::{
    bits_of, bytes_of, le_bits_value, le_bytes_value, lemma_pow_two_mono, pow256, pow_two,
    value_of_bits, value_of_bytes,
};

verus! {

/// Why a byte or bit string was refused by a decoder.
#[derive(Clone, Copy, Debug, PartialEq, Eq)]
pub enum CodecError {
    /// The input has the wrong length.
    BadLength,
    /// A coefficient is not below the modulus.
    NotCanonical,
}

/// `x` and `y` are congruent modulo `m`.
pub open spec fn congruent(x: int, y: int, m: int) -> bool {
    x % m == y % m
}

pub proof fn lemma_congruent_add(x1: int, x2: int, y1: int, y2: int, m: int)
    requires
        m > 0,
        congruent(x1, x2, m),
        congruent(y1, y2, m),
    ensures
        congruent(x1 + y1, x2 + y2, m),
{
    lemma_add_mod_noop(x1, y1, m);
    lemma_add_mod_noop(x2, y2, m);
}

pub proof fn lemma_congruent_sub(x1: int, x2: int, y1: int, y2: int, m: int)
    requires
        m > 0,
        congruent(x1, x2, m),
        congruent(y1, y2, m),
    ensures
        congruent(x1 - y1, x2 - y2, m),
{
    lemma_sub_mod_noop(x1, y1, m);
    lemma_sub_mod_noop(x2, y2, m);
}

pub proof fn lemma_congruent_mul(x1: int, x2: int, y1: int, y2: int, m: int)
    requires
        m > 0,
        congruent(x1, x2, m),
        congruent(y1, y2, m),
    ensures
        congruent(x1 * y1, x2 * y2, m),
{
    lemma_mul_mod_noop(x1, y1, m);
    lemma_mul_mod_noop(x2, y2, m);
}

/// A value congruent to its own reduction.
pub proof fn lemma_congruent_mod(x: int, m: int)
    requires
        m > 0,
    ensures
        congruent(x % m, x, m),
{
    vstd::arithmetic::div_mod::lemma_mod_twice(x, m);
}

/// `x` has an inverse modulo `m`.
pub open spec fn has_inverse(x: int, m: int) -> bool {
    exists|y: int| #[trigger] (x * y) % m == 1
}

/// The parameters of a prime field `Z/pZ`.
pub trait FpParameters {
    /// The modulus `p`.
    spec fn spec_modulus() -> nat;

    /// The number of bits of the encoding of an element.
    spec fn spec_modulus_bits() -> nat;

    fn modulus() -> (r: u64)
        ensures
            r == Self::spec_modulus(),
            r >= 2,
    ;

    /// The modulus is at least two.
    proof fn lemma_modulus_pos()
        ensures
            Self::spec_modulus() >= 2,
    ;

    fn modulus_bits() -> (r: usize)
        ensures
            r == Self::spec_modulus_bits(),
            1 <= r <= 64,
            Self::spec_modulus() <= pow_two(r as nat),
    ;
}

/// An element of the prime field of `F`, held as its least non-negative residue.
#[derive(Debug, PartialEq, Eq, Hash)]
pub struct Fp<F> {
    pub value: u64,
    pub _params: PhantomData<F>,
}

impl<F> Copy for Fp<F> {

}

impl<F> Clone for Fp<F> {
    fn clone(&self) -> (r: Self)
        ensures
            r.value == self.value,
    {
        Fp { value: self.value, _params: PhantomData }
    }
}

impl<F: FpParameters> Fp<F> {
    pub open spec fn modulus_spec() -> int {
        F::spec_modulus() as int
    }

    /// The value is a reduced residue.
    pub open spec fn wf(&self) -> bool {
        (self.value as int) < F::spec_modulus()
    }

    pub open spec fn val(&self) -> int {
        self.value as int
    }

    fn make(value: u64) -> (r: Self)
        ensures
            r.value == value,
    {
        Fp { value, _params: PhantomData }
    }

    /// The residue of `v`.
    pub fn from_u64(v: u64) -> (r: Self)
        ensures
            r.wf(),
            r.val() == v as int % Self::modulus_spec(),
    {
        Self::make(v % F::modulus())
    }

    pub fn zero() -> (r: Self)
        ensures
            r.wf(),
            r.val() == 0,
    {
        let _ = F::modulus();
        Self::make(0)
    }

    pub fn one() -> (r: Self)
        ensures
            r.wf(),
            r.val() == 1,
    {
        let _ = F::modulus();
        Self::make(1)
    }

    pub fn is_zero(&self) -> (r: bool)
        ensures
            r == (self.val() == 0),
    {
        self.value == 0
    }

    pub fn is_one(&self) -> (r: bool)
        ensures
            r == (self.val() == 1),
    {
        self.value == 1
    }

    /// The residue is odd.
    pub fn is_odd(&self) -> (r: bool)
        ensures
            r == (self.val() % 2 == 1),
    {
        self.value % 2 == 1
    }

    pub fn add(&self, other: &Self) -> (r: Self)
        requires
            self.wf(),
            other.wf(),
        ensures
            r.wf(),
            r.val() == (self.val() + other.val()) % Self::modulus_spec(),
    {
        let p = F::modulus();
        let s: u128 = self.value as u128 + other.value as u128;
        Self::make((s % p as u128) as u64)
    }

    pub fn double(&self) -> (r: Self)
        requires
            self.wf(),
        ensures
            r.wf(),
            r.val() == (2 * self.val()) % Self::modulus_spec(),
    {
        self.add(self)
    }

    pub fn neg(&self) -> (r: Self)
        requires
            self.wf(),
        ensures
            r.wf(),
            r.val() == (-self.val()) % Self::modulus_spec(),
    {
        let p = F::modulus();
        if self.value == 0 {
            proof {
                vstd::arithmetic::div_mod::lemma_small_mod(0, p as nat);
                assert(-self.val() == 0);
            }
            Self::make(0)
        } else {
            assert(p - self.value < p);
            proof {
                assert((-self.val()) % (p as int) == p - self.val()) by {
                    vstd::arithmetic::div_mod::lemma_mod_multiples_vanish(
                        1,
                        -self.val(),
                        p as int,
                    );
                    vstd::arithmetic::div_mod::lemma_small_mod(
                        (p - self.value) as nat,
                        p as nat,
                    );
                }
            }
            Self::make(p - self.value)
        }
    }

    pub fn sub(&self, other: &Self) -> (r: Self)
        requires
            self.wf(),
            other.wf(),
        ensures
            r.wf(),
            r.val() == (self.val() - other.val()) % Self::modulus_spec(),
    {
        let p = F::modulus();
        if self.value >= other.value {
            proof {
                vstd::arithmetic::div_mod::lemma_small_mod(
                    (self.value - other.value) as nat,
                    p as nat,
                );
            }
            Self::make(self.value - other.value)
        } else {
            proof {
                vstd::arithmetic::div_mod::lemma_mod_multiples_vanish(
                    1,
                    self.val() - other.val(),
                    p as int,
                );
                vstd::arithmetic::div_mod::lemma_small_mod(
                    (p - (other.value - self.value)) as nat,
                    p as nat,
                );
            }
            Self::make(p - (other.value - self.value))
        }
    }

    pub fn mul(&self, other: &Self) -> (r: Self)
        requires
            self.wf(),
            other.wf(),
        ensures
            r.wf(),
            r.val() == (self.val() * other.val()) % Self::modulus_spec(),
    {
        let p = F::modulus();
        let a = self.value as u128;
        let b = other.value as u128;
        assert(a * b <= 0xffff_ffff_ffff_ffff * 0xffff_ffff_ffff_ffffu128) by (nonlinear_arith)
            requires
                a <= 0xffff_ffff_ffff_ffffu128,
                b <= 0xffff_ffff_ffff_ffffu128,
        ;
        Self::make(((a * b) % p as u128) as u64)
    }

    pub fn square(&self) -> (r: Self)
        requires
            self.wf(),
        ensures
            r.wf(),
            r.val() == (self.val() * self.val()) % Self::modulus_spec(),
    {
        self.mul(self)
    }

    /// The Frobenius map `x -> x^(p^power)`, which fixes every element of a prime field.
    pub fn frobenius_map(&mut self, power: usize)
        ensures
            *final(self) == *old(self),
    {
    }

    /// The inverse modulo `p`, found by the extended Euclidean algorithm.
    /// Zero has none; nor has any residue that shares a factor with `p`.
    pub fn inverse(&self) -> (r: Option<Self>)
        requires
            self.wf(),
        ensures
            self.val() == 0 ==> r is None,
            r matches Some(i) ==> i.wf() && (self.val() * i.val()) % Self::modulus_spec() == 1,
            has_inverse(self.val(), Self::modulus_spec()) ==> r is Some,
    {
        let p = F::modulus();
        if self.value == 0 {
            return None;
        }
        let ghost a = self.val();
        let ghost m = p as int;
        let mut r0: u64 = p;
        let mut s0: u64 = 0;
        let mut r1: u64 = self.value;
        let mut s1: u64 = 1;
        // `a` and `p` as combinations of `r0` and `r1`
        let ghost mut alpha: int = 0;
        let ghost mut beta: int = 1;
        let ghost mut gamma: int = 1;
        let ghost mut delta: int = 0;
        proof {
            vstd::arithmetic::div_mod::lemma_mod_self_0(m);
            vstd::arithmetic::div_mod::lemma_small_mod(a as nat, m as nat);
        }
        while r1 != 0
            invariant
                m == p,
                m >= 2,
                r0 > 0,
                s0 < p,
                s1 < p,
                congruent(s0 * a, r0 as int, m),
                congruent(s1 * a, r1 as int, m),
                a == alpha * r0 + beta * r1,
                m == gamma * r0 + delta * r1,
            decreases r1,
        {
            let q = r0 / r1;
            let r2 = r0 % r1;
            assert(q as u128 * s1 as u128 <= 0xffff_ffff_ffff_ffff * 0xffff_ffff_ffff_ffffu128)
                by (nonlinear_arith)
                requires
                    q <= 0xffff_ffff_ffff_ffffu64,
                    s1 <= 0xffff_ffff_ffff_ffffu64,
            ;
            let qs1: u64 = ((q as u128 * s1 as u128) % p as u128) as u64;
            let s2: u64 = if s0 >= qs1 {
                s0 - qs1
            } else {
                p - (qs1 - s0)
            };
            proof {
                vstd::arithmetic::div_mod::lemma_fundamental_div_mod(r0 as int, r1 as int);
                assert(r2 == r0 - q * r1);
                // s2 = s0 - q * s1 (mod p)
                assert(congruent(s2 as int, s0 - qs1, m)) by {
                    if s0 < qs1 {
                        vstd::arithmetic::div_mod::lemma_mod_multiples_vanish(1, s0 - qs1, m);
                    }
                }
                lemma_congruent_mod(q * s1, m);
                lemma_congruent_sub(s0 as int, s0 as int, qs1 as int, q * s1, m);
                lemma_congruent_mul(s2 as int, s0 - q * s1, a, a, m);
                assert((s0 - q * s1) * a == s0 * a - q * (s1 * a)) by (nonlinear_arith);
                lemma_congruent_mul(q as int, q as int, s1 * a, r1 as int, m);
                lemma_congruent_sub(s0 * a, r0 as int, q * (s1 * a), q * r1, m);
                assert(a == (alpha * q + beta) * r1 + alpha * r2) by (nonlinear_arith)
                    requires
                        a == alpha * r0 + beta * r1,
                        r0 == q * r1 + r2,
                ;
                assert(m == (gamma * q + delta) * r1 + gamma * r2) by (nonlinear_arith)
                    requires
                        m == gamma * r0 + delta * r1,
                        r0 == q * r1 + r2,
                ;
            }
            proof {
                let na = alpha * q + beta;
                let ng = gamma * q + delta;
                beta = alpha;
                alpha = na;
                delta = gamma;
                gamma = ng;
            }
            r0 = r1;
            s0 = s1;
            r1 = r2;
            s1 = s2;
        }
        if r0 == 1 {
            proof {
                assert(s0 * a == a * s0);
                vstd::arithmetic::div_mod::lemma_small_mod(1, m as nat);
            }
            Some(Self::make(s0))
        } else {
            proof {
                if has_inverse(a, m) {
                    let x = choose|x: int| #[trigger] (a * x) % m == 1;
                    let k = (a * x) / m;
                    vstd::arithmetic::div_mod::lemma_fundamental_div_mod(a * x, m);
                    let z = alpha * x - gamma * k;
                    assert(r0 * z == 1) by (nonlinear_arith)
                        requires
                            a == alpha * r0,
                            m == gamma * r0,
                            a * x == m * k + 1,
                            z == alpha * x - gamma * k,
                    ;
                    assert(false) by (nonlinear_arith)
                        requires
                            r0 * z == 1,
                            r0 >= 2,
                    ;
                }
            }
            None
        }
    }

    /// Compares the residues.
    pub fn cmp(&self, other: &Self) -> (r: core::cmp::Ordering)
        ensures
            (r == core::cmp::Ordering::Less) == (self.val() < other.val()),
            (r == core::cmp::Ordering::Equal) == (self.val() == other.val()),
            (r == core::cmp::Ordering::Greater) == (self.val() > other.val()),
    {
        if self.value < other.value {
            core::cmp::Ordering::Less
        } else if self.value == other.value {
            core::cmp::Ordering::Equal
        } else {
            core::cmp::Ordering::Greater
        }
    }

    /// The residue as eight little-endian bytes.
    pub fn to_bytes(&self) -> (r: Vec<u8>)
        ensures
            r@.len() == 8,
            le_bytes_value(r@) == self.val(),
    {
        proof {
            reveal_with_fuel(pow256, 9);
        }
        bytes_of(self.value, 8)
    }

    /// Reads eight little-endian bytes holding a reduced residue.
    pub fn from_bytes(b: &Vec<u8>) -> (r: Result<Self, CodecError>)
        ensures
            b@.len() != 8 ==> r == Err::<Self, CodecError>(CodecError::BadLength),
            b@.len() == 8 && le_bytes_value(b@) >= Self::modulus_spec() ==> r == Err::<
                Self,
                CodecError,
            >(CodecError::NotCanonical),
            b@.len() == 8 && le_bytes_value(b@) < Self::modulus_spec() ==> (r matches Ok(x) && x.wf()
                && x.val() == le_bytes_value(b@)),
    {
        let p = F::modulus();
        if b.len() != 8 {
            return Err(CodecError::BadLength);
        }
        proof {
            lemma_le_bytes_bound(b@);
            reveal_with_fuel(pow256, 9);
        }
        let v = value_of_bytes(b);
        if v >= p {
            Err(CodecError::NotCanonical)
        } else {
            Ok(Self::make(v))
        }
    }

    /// The residue as `modulus_bits()` little-endian bits.
    pub fn to_bits(&self) -> (r: Vec<bool>)
        requires
            self.wf(),
        ensures
            r@.len() == F::spec_modulus_bits(),
            le_bits_value(r@) == self.val(),
    {
        let n = F::modulus_bits();
        bits_of(self.value, n)
    }

    /// Reads `modulus_bits()` little-endian bits holding a reduced residue.
    pub fn from_bits(b: &Vec<bool>) -> (r: Result<Self, CodecError>)
        ensures
            b@.len() != F::spec_modulus_bits() ==> r == Err::<Self, CodecError>(
                CodecError::BadLength,
            ),
            b@.len() == F::spec_modulus_bits() && le_bits_value(b@) >= Self::modulus_spec() ==> r
                == Err::<Self, CodecError>(CodecError::NotCanonical),
            b@.len() == F::spec_modulus_bits() && le_bits_value(b@) < Self::modulus_spec() ==> (r matches Ok(
                x,
            ) && x.wf() && x.val() == le_bits_value(b@)),
    {
        let p = F::modulus();
        let n = F::modulus_bits();
        if b.len() != n {
            return Err(CodecError::BadLength);
        }
        proof {
            lemma_le_bits_bound(b@);
            lemma_pow_two_mono(n as nat, 64);
            reveal_with_fuel(pow_two, 65);
        }
        let v = value_of_bits(b);
        if v >= p {
            Err(CodecError::NotCanonical)
        } else {
            Ok(Self::make(v))
        }
    }

    /// The residue of 128 random bits `x`.
    pub fn from_random(x: u128) -> (r: Self)
        ensures
            r.wf(),
            r.val() == x as int % Self::modulus_spec(),
    {
        let p = F::modulus();
        Self::make((x % p as u128) as u64)
    }

    /// A residue drawn from the thread-local generator of `rand`: the residue of
    /// one draw of 128 random bits.
    pub fn sample() -> (r: Self)
        ensures
            r.wf(),
    {
        let x: u128 = rand::random::<u128>();
        Self::from_random(x)
    }
}

proof fn lemma_le_bytes_bound(s: Seq<u8>)
    ensures
        le_bytes_value(s) < pow256(s.len()),
    decreases s.len(),
{
    if s.len() > 0 {
        lemma_le_bytes_bound(s.drop_first());
        let t = le_bytes_value(s.drop_first());
        let q = pow256((s.len() - 1) as nat);
        assert(s[0] + 256 * t < 256 * q) by (nonlinear_arith)
            requires
                t < q,
                s[0] < 256,
        ;
    }
}

proof fn lemma_le_bits_bound(s: Seq<bool>)
    ensures
        le_bits_value(s) < pow_two(s.len()),
    decreases s.len(),
{
    if s.len() > 0 {
        lemma_le_bits_bound(s.drop_first());
        let t = le_bits_value(s.drop_first());
        let q = pow_two((s.len() - 1) as nat);
        let d: nat = if s[0] { 1nat } else { 0nat };
        assert(d + 2 * t < 2 * q) by (nonlinear_arith)
            requires
                t < q,
                d < 2,
        ;
    }
}

/// Relies on `rand::random`: a value drawn from the thread-local generator.
pub assume_specification<T>[ rand::random::<T> ]() -> (r: T)
    where
        rand::distributions::Standard: rand::distributions::Distribution<T>,
;

} // verus!

verus! {

/// `r`, computed as `(x * y) % m`, is congruent to `xx * yy` when `x`, `y` are
/// congruent to `xx`, `yy`.
pub proof fn lemma_step_mul(r: int, x: int, y: int, xx: int, yy: int, m: int)
    requires
        m > 0,
        r == (x * y) % m,
        congruent(x, xx, m),
        congruent(y, yy, m),
    ensures
        congruent(r, xx * yy, m),
{
    lemma_congruent_mod(x * y, m);
    lemma_congruent_mul(x, xx, y, yy, m);
}

/// As `lemma_step_mul`, for `r == (x + y) % m`.
pub proof fn lemma_step_add(r: int, x: int, y: int, xx: int, yy: int, m: int)
    requires
        m > 0,
        r == (x + y) % m,
        congruent(x, xx, m),
        congruent(y, yy, m),
    ensures
        congruent(r, xx + yy, m),
{
    lemma_congruent_mod(x + y, m);
    lemma_congruent_add(x, xx, y, yy, m);
}

/// As `lemma_step_mul`, for `r == (x - y) % m`.
pub proof fn lemma_step_sub(r: int, x: int, y: int, xx: int, yy: int, m: int)
    requires
        m > 0,
        r == (x - y) % m,
        congruent(x, xx, m),
        congruent(y, yy, m),
    ensures
        congruent(r, xx - yy, m),
{
    lemma_congruent_mod(x - y, m);
    lemma_congruent_sub(x, xx, y, yy, m);
}

/// A reduced residue congruent to `x` is `x % m`.
pub proof fn lemma_congruent_reduced(r: int, x: int, m: int)
    requires
        m > 0,
        0 <= r < m,
        congruent(r, x, m),
    ensures
        r == x % m,
{
    vstd::arithmetic::div_mod::lemma_small_mod(r as nat, m as nat);
}

} // verus!
