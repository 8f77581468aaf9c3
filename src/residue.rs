use vstd::prelude::*;

use vstd::arithmetic::div_mod::{lemma_mul_mod_noop_left, lemma_mul_mod_noop_right, lemma_small_mod};
use vstd::arithmetic::mul::lemma_mul_is_associative;

use crate::dft::Spectral;
use crate::sample::Sample;

verus! {

/// The prime `119 * 2^23 + 1`: its units form a cyclic group whose order is
/// divisible by every power of two up to `2^23`.
pub const MODULUS: u64 = 998244353;

/// A generator of the units modulo [`MODULUS`].
pub const GENERATOR: u64 = 3;

/// The inverse of two modulo [`MODULUS`].
pub const HALF: u64 = 499122177;

/// An integer taken modulo [`MODULUS`]: an exact sample type for which the
/// radix-2 transform is the number-theoretic transform. Every operation first
/// reduces its operands, so any `u64` is a valid residue.
#[derive(Clone, Copy, Debug, PartialEq, Eq, Structural)]
pub struct Residue(pub u64);

/// `x` reduced modulo [`MODULUS`].
pub open spec fn reduced(x: int) -> u64 {
    (x % (MODULUS as int)) as u64
}

/// `b` to the power `e`, modulo [`MODULUS`].
pub open spec fn pow_mod(b: nat, e: nat) -> nat
    decreases e,
{
    if e == 0 {
        1
    } else {
        ((b * pow_mod(b, (e - 1) as nat)) % (MODULUS as nat)) as nat
    }
}

/// The power of [`GENERATOR`] that stands for `e^(-2 pi i k n / len)`: the
/// generator raised to `(MODULUS - 1) / len` is a root of unity of order `len`
/// whenever `len` divides `MODULUS - 1`. The inverse rotation takes the
/// reciprocal.
pub open spec fn rotation_exponent(k: nat, n: nat, len: nat, inverse: bool) -> nat {
    let e = ((MODULUS - 1) as nat / len) * ((k * n) % len);
    if inverse {
        ((MODULUS - 1) - e) as nat
    } else {
        e
    }
}

proof fn lemma_pow_mod_bound(b: nat, e: nat)
    ensures
        pow_mod(b, e) < MODULUS,
    decreases e,
{
}

proof fn lemma_pow_mod_add(b: nat, m: nat, n: nat)
    ensures
        pow_mod(b, m + n) == (pow_mod(b, m) * pow_mod(b, n)) % (MODULUS as nat),
    decreases m,
{
    let md = MODULUS as nat;
    lemma_pow_mod_bound(b, n);
    let pn = pow_mod(b, n);
    if m == 0 {
        assert(m + n == n);
        lemma_small_mod(pn, MODULUS as nat);
        assert(pow_mod(b, 0) == 1);
        assert(pow_mod(b, m) * pn == pn);
    } else {
        let pm = pow_mod(b, (m - 1) as nat);
        lemma_pow_mod_add(b, (m - 1) as nat, n);
        assert((m - 1) as nat + n == (m + n - 1) as nat);
        assert(pow_mod(b, m + n) == (b * pow_mod(b, (m + n - 1) as nat)) % md);
        assert(pow_mod(b, (m + n - 1) as nat) == (pm * pn) % md);
        lemma_mul_mod_noop_right(b as int, (pm * pn) as int, md as int);
        assert(pow_mod(b, m + n) == (b * (pm * pn)) % md);
        lemma_mul_is_associative(b as int, pm as int, pn as int);
        assert(pow_mod(b, m + n) == ((b * pm) * pn) % md);
        lemma_mul_mod_noop_left((b * pm) as int, pn as int, md as int);
        assert(pow_mod(b, m) == (b * pm) % md);
    }
}

fn pow_mod_exec(b: u64, e: u64) -> (r: u64)
    requires
        b < MODULUS,
    ensures
        r == pow_mod(b as nat, e as nat),
    decreases e,
{
    proof {
        lemma_pow_mod_bound(b as nat, e as nat);
    }
    if e == 0 {
        1
    } else if e % 2 == 0 {
        let h = pow_mod_exec(b, e / 2);
        proof {
            lemma_pow_mod_add(b as nat, (e / 2) as nat, (e / 2) as nat);
            lemma_pow_mod_bound(b as nat, (e / 2) as nat);
        }
        assert(h * h < 0x1_0000_0000_0000_0000) by (nonlinear_arith)
            requires
                h < MODULUS,
        ;
        (h * h) % MODULUS
    } else {
        let t = pow_mod_exec(b, e - 1);
        proof {
            lemma_pow_mod_bound(b as nat, (e - 1) as nat);
        }
        assert(b * t < 0x1_0000_0000_0000_0000) by (nonlinear_arith)
            requires
                b < MODULUS,
                t < MODULUS,
        ;
        (b * t) % MODULUS
    }
}

fn mul_mod(a: u64, b: u64) -> (r: u64)
    ensures
        r == reduced((a % MODULUS) * (b % MODULUS)),
{
    let (x, y) = (a % MODULUS, b % MODULUS);
    assert(x * y < 0x1_0000_0000_0000_0000) by (nonlinear_arith)
        requires
            x < MODULUS,
            y < MODULUS,
    ;
    (x * y) % MODULUS
}

impl Sample for Residue {
    open spec fn zero_spec() -> Residue {
        Residue(0)
    }

    open spec fn one_spec() -> Residue {
        Residue(1)
    }

    open spec fn add_spec(self, rhs: Residue) -> Residue {
        Residue(reduced((self.0 % MODULUS) + (rhs.0 % MODULUS)))
    }

    open spec fn mul_spec(self, rhs: Residue) -> Residue {
        Residue(reduced((self.0 % MODULUS) * (rhs.0 % MODULUS)))
    }

    fn zero() -> (r: Residue) {
        Residue(0)
    }

    fn plus(self, rhs: Residue) -> (r: Residue) {
        Residue((self.0 % MODULUS + rhs.0 % MODULUS) % MODULUS)
    }

    fn times(self, rhs: Residue) -> (r: Residue) {
        Residue(mul_mod(self.0, rhs.0))
    }
}

/// Residues are their own real samples: lifting and taking the magnitude
/// leave a value as it is.
impl Spectral for Residue {
    type Real = Residue;

    open spec fn lift_spec(x: Residue) -> Residue {
        x
    }

    open spec fn czero_spec() -> Residue {
        Residue(0)
    }

    open spec fn cadd_spec(self, rhs: Residue) -> Residue {
        self.add_spec(rhs)
    }

    open spec fn csub_spec(self, rhs: Residue) -> Residue {
        Residue(reduced((self.0 % MODULUS) + MODULUS - (rhs.0 % MODULUS)))
    }

    open spec fn cmul_spec(self, rhs: Residue) -> Residue {
        self.mul_spec(rhs)
    }

    open spec fn halve_spec(self) -> Residue {
        self.mul_spec(Residue(HALF))
    }

    open spec fn rotation_spec(k: nat, n: nat, len: nat, inverse: bool) -> Residue {
        Residue(pow_mod(GENERATOR as nat, rotation_exponent(k, n, len, inverse)) as u64)
    }

    open spec fn norm_spec(self) -> Residue {
        self
    }

    fn lift(x: Residue) -> (r: Residue) {
        x
    }

    fn czero() -> (r: Residue) {
        Residue(0)
    }

    fn cadd(self, rhs: Residue) -> (r: Residue) {
        self.plus(rhs)
    }

    fn csub(self, rhs: Residue) -> (r: Residue) {
        Residue((self.0 % MODULUS + MODULUS - rhs.0 % MODULUS) % MODULUS)
    }

    fn cmul(self, rhs: Residue) -> (r: Residue) {
        self.times(rhs)
    }

    fn halve(self) -> (r: Residue) {
        self.times(Residue(HALF))
    }

    fn rotation(k: usize, n: usize, len: usize, inverse: bool) -> (r: Residue) {
        let (k_wide, n_wide) = (k as u128, n as u128);
        assert(k_wide * n_wide <= 0xffff_ffff_ffff_ffff_ffff_ffff_ffff_ffff) by (nonlinear_arith)
            requires
                k_wide <= 0xffff_ffff_ffff_ffff,
                n_wide <= 0xffff_ffff_ffff_ffff,
        ;
        let kn = (k_wide * n_wide) % (len as u128);
        let step = (MODULUS - 1) / (len as u64);
        assert(step * kn < MODULUS) by (nonlinear_arith)
            requires
                step == (MODULUS - 1) as int / len as int,
                kn < len,
                len > 0,
        ;
        let e = step * (kn as u64);
        let e = if inverse {
            (MODULUS - 1) - e
        } else {
            e
        };
        proof {
            lemma_pow_mod_bound(GENERATOR as nat, e as nat);
        }
        Residue(pow_mod_exec(GENERATOR, e))
    }

    fn norm(self) -> (r: Residue) {
        self
    }
}

} // verus!
