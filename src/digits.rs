use vstd::prelude::*;

verus! {

/// `256^n`.
pub open spec fn pow256(n: nat) -> nat
    decreases n,
{
    if n == 0 {
        1
    } else {
        256 * pow256((n - 1) as nat)
    }
}

/// `2^n`.
pub open spec fn pow_two(n: nat) -> nat
    decreases n,
{
    if n == 0 {
        1
    } else {
        2 * pow_two((n - 1) as nat)
    }
}

/// The number whose little-endian base-256 digits are `s`.
pub open spec fn le_bytes_value(s: Seq<u8>) -> nat
    decreases s.len(),
{
    if s.len() == 0 {
        0
    } else {
        s[0] as nat + 256 * le_bytes_value(s.drop_first())
    }
}

/// The number whose little-endian binary digits are `s` (`true` is one).
pub open spec fn le_bits_value(s: Seq<bool>) -> nat
    decreases s.len(),
{
    if s.len() == 0 {
        0
    } else {
        (if s[0] { 1nat } else { 0nat }) + 2 * le_bits_value(s.drop_first())
    }
}

pub proof fn lemma_pow256_pos(n: nat)
    ensures
        pow256(n) > 0,
    decreases n,
{
    if n > 0 {
        lemma_pow256_pos((n - 1) as nat);
    }
}

pub proof fn lemma_pow_two_pos(n: nat)
    ensures
        pow_two(n) > 0,
    decreases n,
{
    if n > 0 {
        lemma_pow_two_pos((n - 1) as nat);
    }
}

pub proof fn lemma_pow_two_mono(a: nat, b: nat)
    requires
        a <= b,
    ensures
        pow_two(a) <= pow_two(b),
    decreases b,
{
    if a < b {
        lemma_pow_two_mono(a, (b - 1) as nat);
        lemma_pow_two_pos((b - 1) as nat);
    }
}

/// Appending a most significant byte.
pub proof fn lemma_le_bytes_push(s: Seq<u8>, b: u8)
    ensures
        le_bytes_value(s.push(b)) == le_bytes_value(s) + b as nat * pow256(s.len()),
    decreases s.len(),
{
    if s.len() == 0 {
        assert(s.push(b).drop_first() =~= Seq::<u8>::empty());
        assert(le_bytes_value(Seq::<u8>::empty()) == 0);
        assert(pow256(0) == 1);
    } else {
        assert(s.push(b).drop_first() =~= s.drop_first().push(b));
        assert(s.push(b)[0] == s[0]);
        lemma_le_bytes_push(s.drop_first(), b);
        let x = le_bytes_value(s.drop_first());
        let p = pow256((s.len() - 1) as nat);
        assert(256 * (x + b as nat * p) == 256 * x + b as nat * (256 * p)) by (nonlinear_arith);
        assert(pow256(s.len()) == 256 * p);
        assert(le_bytes_value(s.push(b)) == s[0] as nat + 256 * le_bytes_value(s.drop_first().push(b)));
    }
}

/// Appending a most significant bit.
pub proof fn lemma_le_bits_push(s: Seq<bool>, b: bool)
    ensures
        le_bits_value(s.push(b)) == le_bits_value(s) + (if b { 1nat } else { 0nat }) * pow_two(
            s.len(),
        ),
    decreases s.len(),
{
    if s.len() == 0 {
        assert(s.push(b).drop_first() =~= Seq::<bool>::empty());
        assert(le_bits_value(Seq::<bool>::empty()) == 0);
        assert(pow_two(0) == 1);
    } else {
        assert(s.push(b).drop_first() =~= s.drop_first().push(b));
        assert(s.push(b)[0] == s[0]);
        lemma_le_bits_push(s.drop_first(), b);
        let x = le_bits_value(s.drop_first());
        let p = pow_two((s.len() - 1) as nat);
        let d: nat = if b { 1nat } else { 0nat };
        assert(2 * (x + d * p) == 2 * x + d * (2 * p)) by (nonlinear_arith);
        assert(pow_two(s.len()) == 2 * p);
        assert(le_bits_value(s.push(b)) == (if s[0] { 1nat } else { 0nat }) + 2 * le_bits_value(s.drop_first().push(b)));
    }
}

/// Writes `v` as `n` little-endian bytes; `v` must fit in them.
pub fn bytes_of(v: u64, n: usize) -> (r: Vec<u8>)
    requires
        v < pow256(n as nat),
    ensures
        r@.len() == n,
        le_bytes_value(r@) == v,
{
    let mut out: Vec<u8> = Vec::new();
    let mut x: u64 = v;
    let mut i: usize = 0;
    proof {
        assert(le_bytes_value(out@) == 0);
        assert(pow256(0) == 1);
    }
    while i < n
        invariant
            i <= n,
            out@.len() == i,
            v == le_bytes_value(out@) + pow256(i as nat) * x,
            x < pow256((n - i) as nat),
        decreases n - i,
    {
        let b: u8 = (x % 256) as u8;
        proof {
            lemma_le_bytes_push(out@, b);
            let q = x / 256;
            let pi = pow256(i as nat);
            assert(pow256((i + 1) as nat) == 256 * pi);
            assert(pow256((n - i) as nat) == 256 * pow256((n - i - 1) as nat));
            assert(x == 256 * q + b as nat);
            assert(pi * x == b as nat * pi + (256 * pi) * q) by (nonlinear_arith)
                requires
                    x == 256 * q + b as nat,
            ;
            assert(q < pow256((n - i - 1) as nat)) by (nonlinear_arith)
                requires
                    x == 256 * q + b as nat,
                    x < 256 * pow256((n - i - 1) as nat),
                    b < 256,
            ;
        }
        out.push(b);
        x = x / 256;
        i = i + 1;
    }
    proof {
        assert(x == 0);
    }
    out
}

/// Reads the number whose little-endian bytes are `s`, which must fit in a `u64`.
pub fn value_of_bytes(s: &Vec<u8>) -> (r: u64)
    requires
        le_bytes_value(s@) < 0x1_0000_0000_0000_0000,
    ensures
        r == le_bytes_value(s@),
{
    let mut acc: u64 = 0;
    let mut j: usize = s.len();
    while j > 0
        invariant
            j <= s@.len(),
            acc == le_bytes_value(s@.subrange(j as int, s@.len() as int)),
            le_bytes_value(s@) < 0x1_0000_0000_0000_0000,
        decreases j,
    {
        j = j - 1;
        let ghost rest = s@.subrange(j + 1, s@.len() as int);
        proof {
            assert(s@.subrange(j as int, s@.len() as int).drop_first() =~= rest);
            lemma_le_bytes_prefix_bound(s@, j as nat);
            lemma_pow256_pos(j as nat);
            let t = le_bytes_value(s@.subrange(j as int, s@.len() as int));
            assert(t <= t * pow256(j as nat)) by (nonlinear_arith)
                requires
                    pow256(j as nat) > 0,
            ;
            assert(s@.subrange(j as int, s@.len() as int)[0] == s@[j as int]);
        }
        acc = s[j] as u64 + 256 * acc;
    }
    proof {
        assert(s@.subrange(0, s@.len() as int) =~= s@);
    }
    acc
}

/// The value of a suffix is at most the value of the whole sequence.
proof fn lemma_le_bytes_prefix_bound(s: Seq<u8>, j: nat)
    requires
        j <= s.len(),
    ensures
        le_bytes_value(s.subrange(j as int, s.len() as int)) * pow256(j) <= le_bytes_value(s),
    decreases j,
{
    if j == 0 {
        assert(s.subrange(0, s.len() as int) =~= s);
    } else {
        assert(s.drop_first().subrange((j - 1) as int, s.drop_first().len() as int) =~= s.subrange(
            j as int,
            s.len() as int,
        ));
        lemma_le_bytes_prefix_bound(s.drop_first(), (j - 1) as nat);
        let t = le_bytes_value(s.subrange(j as int, s.len() as int));
        let p = pow256((j - 1) as nat);
        assert(t * (256 * p) == 256 * (t * p)) by (nonlinear_arith);
    }
}

/// Writes `v` as `n` little-endian bits; `v` must fit in them.
pub fn bits_of(v: u64, n: usize) -> (r: Vec<bool>)
    requires
        v < pow_two(n as nat),
    ensures
        r@.len() == n,
        le_bits_value(r@) == v,
{
    let mut out: Vec<bool> = Vec::new();
    let mut x: u64 = v;
    let mut i: usize = 0;
    proof {
        assert(le_bits_value(out@) == 0);
        assert(pow_two(0) == 1);
    }
    while i < n
        invariant
            i <= n,
            out@.len() == i,
            v == le_bits_value(out@) + pow_two(i as nat) * x,
            x < pow_two((n - i) as nat),
        decreases n - i,
    {
        let b: bool = x % 2 == 1;
        proof {
            lemma_le_bits_push(out@, b);
            let q = x / 2;
            let d: nat = if b { 1nat } else { 0nat };
            let pi = pow_two(i as nat);
            assert(pow_two((i + 1) as nat) == 2 * pi);
            assert(pow_two((n - i) as nat) == 2 * pow_two((n - i - 1) as nat));
            assert(x == 2 * q + d);
            assert(pi * x == d * pi + (2 * pi) * q) by (nonlinear_arith)
                requires
                    x == 2 * q + d,
            ;
            assert(q < pow_two((n - i - 1) as nat)) by (nonlinear_arith)
                requires
                    x == 2 * q + d,
                    x < 2 * pow_two((n - i - 1) as nat),
                    d < 2,
            ;
        }
        out.push(b);
        x = x / 2;
        i = i + 1;
    }
    proof {
        assert(x == 0);
    }
    out
}

/// The value of a bit suffix is at most the value of the whole sequence.
proof fn lemma_le_bits_prefix_bound(s: Seq<bool>, j: nat)
    requires
        j <= s.len(),
    ensures
        le_bits_value(s.subrange(j as int, s.len() as int)) * pow_two(j) <= le_bits_value(s),
    decreases j,
{
    if j == 0 {
        assert(s.subrange(0, s.len() as int) =~= s);
    } else {
        assert(s.drop_first().subrange((j - 1) as int, s.drop_first().len() as int) =~= s.subrange(
            j as int,
            s.len() as int,
        ));
        lemma_le_bits_prefix_bound(s.drop_first(), (j - 1) as nat);
        let t = le_bits_value(s.subrange(j as int, s.len() as int));
        let p = pow_two((j - 1) as nat);
        assert(t * (2 * p) == 2 * (t * p)) by (nonlinear_arith);
    }
}

/// Reads the number whose little-endian bits are `s`, which must fit in a `u64`.
pub fn value_of_bits(s: &Vec<bool>) -> (r: u64)
    requires
        le_bits_value(s@) < 0x1_0000_0000_0000_0000,
    ensures
        r == le_bits_value(s@),
{
    let mut acc: u64 = 0;
    let mut j: usize = s.len();
    while j > 0
        invariant
            j <= s@.len(),
            acc == le_bits_value(s@.subrange(j as int, s@.len() as int)),
            le_bits_value(s@) < 0x1_0000_0000_0000_0000,
        decreases j,
    {
        j = j - 1;
        let ghost rest = s@.subrange(j + 1, s@.len() as int);
        proof {
            assert(s@.subrange(j as int, s@.len() as int).drop_first() =~= rest);
            lemma_le_bits_prefix_bound(s@, j as nat);
            lemma_pow_two_pos(j as nat);
            let t = le_bits_value(s@.subrange(j as int, s@.len() as int));
            assert(t <= t * pow_two(j as nat)) by (nonlinear_arith)
                requires
                    pow_two(j as nat) > 0,
            ;
            assert(s@.subrange(j as int, s@.len() as int)[0] == s@[j as int]);
        }
        let d: u64 = if s[j] { 1 } else { 0 };
        acc = d + 2 * acc;
    }
    proof {
        assert(s@.subrange(0, s@.len() as int) =~= s@);
    }
    acc
}

} // verus!
