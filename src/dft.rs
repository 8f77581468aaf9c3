use vstd::prelude::*;

use crate::error::Error;
use crate::sample::Sample;

verus! {

/// A complex sample of a spectrum, over real samples of type `Real`.
///
/// As with [`Sample`], the spec functions give the meaning of the arithmetic
/// and the executable methods compute it; their default is an unspecified
/// value.
pub trait Spectral: Copy + Sized {
    type Real: Sample;

    /// The real value `x` as a complex one, with a zero imaginary part.
    open spec fn lift_spec(x: Self::Real) -> Self {
        arbitrary()
    }

    open spec fn czero_spec() -> Self {
        arbitrary()
    }

    open spec fn cadd_spec(self, rhs: Self) -> Self {
        arbitrary()
    }

    open spec fn csub_spec(self, rhs: Self) -> Self {
        arbitrary()
    }

    open spec fn cmul_spec(self, rhs: Self) -> Self {
        arbitrary()
    }

    /// Half of the value.
    open spec fn halve_spec(self) -> Self {
        arbitrary()
    }

    /// The rotation factor `e^(-2 pi i k n / len)`, or `e^(2 pi i k n / len)`
    /// when `inverse` holds.
    open spec fn rotation_spec(k: nat, n: nat, len: nat, inverse: bool) -> Self {
        arbitrary()
    }

    /// The magnitude of the value.
    open spec fn norm_spec(self) -> Self::Real {
        arbitrary()
    }

    fn lift(x: Self::Real) -> (r: Self)
        ensures
            r == Self::lift_spec(x),
    ;

    fn czero() -> (r: Self)
        ensures
            r == Self::czero_spec(),
    ;

    fn cadd(self, rhs: Self) -> (r: Self)
        ensures
            r == self.cadd_spec(rhs),
    ;

    fn csub(self, rhs: Self) -> (r: Self)
        ensures
            r == self.csub_spec(rhs),
    ;

    fn cmul(self, rhs: Self) -> (r: Self)
        ensures
            r == self.cmul_spec(rhs),
    ;

    fn halve(self) -> (r: Self)
        ensures
            r == self.halve_spec(),
    ;

    fn rotation(k: usize, n: usize, len: usize, inverse: bool) -> (r: Self)
        requires
            len > 0,
        ensures
            r == Self::rotation_spec(k as nat, n as nat, len as nat, inverse),
    ;

    fn norm(self) -> (r: Self::Real)
        ensures
            r == self.norm_spec(),
    ;
}

/// `n` is a power of two.
pub open spec fn is_pow2(n: nat) -> bool
    decreases n,
{
    if n <= 1 {
        n == 1
    } else {
        n % 2 == 0 && is_pow2(n / 2)
    }
}

/// The least power of two that is at least `n` (one for zero).
pub open spec fn next_pow2(n: nat) -> nat
    decreases n,
{
    if n <= 1 {
        1
    } else {
        2 * next_pow2(((n + 1) / 2) as nat)
    }
}

/// The samples at even positions.
pub open spec fn evens<C>(x: Seq<C>) -> Seq<C> {
    Seq::new(((x.len() + 1) / 2) as nat, |i: int| x[2 * i])
}

/// The samples at odd positions.
pub open spec fn odds<C>(x: Seq<C>) -> Seq<C> {
    Seq::new((x.len() / 2) as nat, |i: int| x[2 * i + 1])
}

/// The odd-half sample `o` of butterfly `k` turned by its rotation factor.
pub open spec fn twiddled<C: Spectral>(o: C, k: int, len: int, inverse: bool) -> C {
    o.cmul_spec(C::rotation_spec(k as nat, 1, len as nat, inverse))
}

/// `v`, halved on the inverse transform.
pub open spec fn scaled<C: Spectral>(v: C, inverse: bool) -> C {
    if inverse {
        v.halve_spec()
    } else {
        v
    }
}

/// The radix-2 transform: a single sample is its own transform; otherwise the
/// even and odd halves are transformed, and butterfly `k` gives output `k` as
/// `even[k] + t` and output `k + len / 2` as `even[k] - t`, with `t` the
/// twiddled `odd[k]`. The inverse transform turns the other way and halves
/// every butterfly output.
pub open spec fn radix2<C: Spectral>(x: Seq<C>, inverse: bool) -> Seq<C>
    decreases x.len(),
{
    if x.len() <= 1 {
        x
    } else {
        let h = x.len() / 2;
        let e = radix2(evens(x), inverse);
        let o = radix2(odds(x), inverse);
        Seq::new(
            x.len(),
            |k: int|
                if k < h {
                    scaled(e[k].cadd_spec(twiddled(o[k], k, x.len() as int, inverse)), inverse)
                } else {
                    scaled(
                        e[k - h].csub_spec(twiddled(o[k - h], k - h, x.len() as int, inverse)),
                        inverse,
                    )
                },
        )
    }
}

/// `x[0] e^(-2 pi i k 0 / len) + ... + x[m - 1] e^(-2 pi i k (m - 1) / len)`,
/// added from the left, with `len` the length of `x`.
pub open spec fn dft_sum<C: Spectral>(x: Seq<C>, k: int, m: int) -> C
    decreases m,
{
    if m <= 0 {
        C::czero_spec()
    } else {
        dft_sum(x, k, m - 1).cadd_spec(
            x[m - 1].cmul_spec(C::rotation_spec(k as nat, (m - 1) as nat, x.len(), false)),
        )
    }
}

/// The discrete Fourier transform of `x`, term by term.
pub open spec fn dft_spec<C: Spectral>(x: Seq<C>) -> Seq<C> {
    Seq::new(x.len(), |k: int| dft_sum(x, k, x.len() as int))
}

/// The real samples `x` as complex ones, followed by zeros up to length `len`.
pub open spec fn lifted<C: Spectral>(x: Seq<C::Real>, len: nat) -> Seq<C> {
    Seq::new(len, |i: int| if i < x.len() { C::lift_spec(x[i]) } else { C::czero_spec() })
}

/// The magnitudes of a spectrum.
pub open spec fn norms<C: Spectral>(x: Seq<C>) -> Seq<C::Real> {
    Seq::new(x.len(), |i: int| x[i].norm_spec())
}

proof fn lemma_pow2_half(n: nat)
    requires
        is_pow2(n),
        n >= 2,
    ensures
        n % 2 == 0,
        is_pow2(n / 2),
        n / 2 >= 1,
{
}

proof fn lemma_radix2_len<C: Spectral>(x: Seq<C>, inverse: bool)
    ensures
        radix2(x, inverse).len() == x.len(),
    decreases x.len(),
{
    if x.len() > 1 {
        lemma_radix2_len(evens(x), inverse);
        lemma_radix2_len(odds(x), inverse);
    }
}

pub(crate) proof fn lemma_next_pow2(n: nat)
    ensures
        is_pow2(next_pow2(n)),
        next_pow2(n) >= n,
        n >= 1 ==> next_pow2(n) <= 2 * n,
        n >= 2 ==> next_pow2(n) + 2 <= 2 * n,
    decreases n,
{
    if n > 1 {
        lemma_next_pow2(((n + 1) / 2) as nat);
        let p = next_pow2(((n + 1) / 2) as nat);
        assert(next_pow2(n) == 2 * p);
        assert(2 * ((n + 1) / 2) <= n + 1);
    }
}

/// Whether `n` is a power of two.
pub fn is_power_of_two(n: usize) -> (r: bool)
    ensures
        r == is_pow2(n as nat),
    decreases n,
{
    if n <= 1 {
        n == 1
    } else if n % 2 != 0 {
        false
    } else {
        is_power_of_two(n / 2)
    }
}

/// The least power of two that is at least `n`.
pub fn next_power_of_two(n: usize) -> (r: usize)
    requires
        n <= usize::MAX / 2,
    ensures
        r == next_pow2(n as nat),
    decreases n,
{
    proof {
        lemma_next_pow2(n as nat);
    }
    if n <= 1 {
        1
    } else {
        2 * next_power_of_two((n + 1) / 2)
    }
}

/// The radix-2 transform of a sequence whose length is a power of two.
fn radix2_exec<C: Spectral>(x: &Vec<C>, inverse: bool) -> (r: Vec<C>)
    requires
        is_pow2(x@.len()),
    ensures
        r@ == radix2(x@, inverse),
    decreases x@.len(),
{
    let l = x.len();
    if l == 1 {
        let mut single: Vec<C> = Vec::new();
        single.push(x[0]);
        assert(single@ =~= x@);
        return single;
    }
    proof {
        lemma_pow2_half(l as nat);
    }
    let h = l / 2;
    let mut even: Vec<C> = Vec::new();
    let mut odd: Vec<C> = Vec::new();
    let mut i: usize = 0;
    while i < h
        invariant
            l == x@.len(),
            l % 2 == 0,
            h == l / 2,
            i <= h,
            even@ =~= evens(x@).subrange(0, i as int),
            odd@ =~= odds(x@).subrange(0, i as int),
        decreases h - i,
    {
        even.push(x[2 * i]);
        odd.push(x[2 * i + 1]);
        i += 1;
    }
    assert(even@ =~= evens(x@));
    assert(odd@ =~= odds(x@));
    let e = radix2_exec(&even, inverse);
    let o = radix2_exec(&odd, inverse);
    proof {
        lemma_radix2_len(evens(x@), inverse);
        lemma_radix2_len(odds(x@), inverse);
    }
    let ghost spec = radix2(x@, inverse);
    let mut lo: Vec<C> = Vec::new();
    let mut hi: Vec<C> = Vec::new();
    let mut k: usize = 0;
    while k < h
        invariant
            l == x@.len(),
            l >= 2,
            h == l / 2,
            e@.len() == h,
            o@.len() == h,
            e@ == radix2(evens(x@), inverse),
            o@ == radix2(odds(x@), inverse),
            spec == radix2(x@, inverse),
            k <= h,
            lo@ =~= spec.subrange(0, k as int),
            hi@ =~= spec.subrange(h as int, h + k),
        decreases h - k,
    {
        let t = o[k].cmul(C::rotation(k, 1, l, inverse));
        let mut a = e[k].cadd(t);
        let mut b = e[k].csub(t);
        if inverse {
            a = a.halve();
            b = b.halve();
        }
        lo.push(a);
        hi.push(b);
        k += 1;
    }
    lo.append(&mut hi);
    assert(lo@ =~= spec);
    lo
}

/// The direct discrete Fourier transform: output `k` is the sum over `n` of
/// `x[n] e^(-2 pi i k n / len)`. Quadratic time; a reference for the fast one.
pub fn dft<C: Spectral>(x: &Vec<C>) -> (r: Vec<C>)
    ensures
        r@ == dft_spec(x@),
{
    let l = x.len();
    let mut out: Vec<C> = Vec::new();
    let mut k: usize = 0;
    while k < l
        invariant
            l == x@.len(),
            k <= l,
            out@ =~= dft_spec(x@).subrange(0, k as int),
        decreases l - k,
    {
        let mut t = C::czero();
        let mut n: usize = 0;
        while n < l
            invariant
                l == x@.len(),
                k < l,
                n <= l,
                t == dft_sum(x@, k as int, n as int),
            decreases l - n,
        {
            t = t.cadd(x[n].cmul(C::rotation(k, n, l, false)));
            n += 1;
        }
        out.push(t);
        k += 1;
    }
    out
}

/// The fast transform of a sequence whose length is a power of two;
/// `LengthConstraint` otherwise.
pub fn fft_recursive<C: Spectral>(x: &Vec<C>) -> (r: Result<Vec<C>, Error>)
    ensures
        is_pow2(x@.len()) ==> r.is_ok() && r.unwrap()@ == radix2(x@, false),
        !is_pow2(x@.len()) ==> r == Err::<Vec<C>, Error>(Error::LengthConstraint),
{
    if !is_power_of_two(x.len()) {
        return Err(Error::LengthConstraint);
    }
    Ok(radix2_exec(x, false))
}

/// The fast inverse transform of a sequence whose length is a power of two,
/// each butterfly halved; `LengthConstraint` otherwise.
pub fn ifft_recursive<C: Spectral>(x: &Vec<C>) -> (r: Result<Vec<C>, Error>)
    ensures
        is_pow2(x@.len()) ==> r.is_ok() && r.unwrap()@ == radix2(x@, true),
        !is_pow2(x@.len()) ==> r == Err::<Vec<C>, Error>(Error::LengthConstraint),
{
    if !is_power_of_two(x.len()) {
        return Err(Error::LengthConstraint);
    }
    Ok(radix2_exec(x, true))
}

/// Fast transform of a real sequence: zero-extended to the next power of two,
/// taken as complex, then transformed. The output's length is that power of two.
pub fn fft<C: Spectral>(x: &Vec<C::Real>) -> (r: Vec<C>)
    requires
        x@.len() <= usize::MAX / 2,
    ensures
        r@ == radix2(lifted::<C>(x@, next_pow2(x@.len())), false),
        r@.len() == next_pow2(x@.len()),
        is_pow2(r@.len()),
{
    let n = x.len();
    let p = next_power_of_two(n);
    proof {
        lemma_next_pow2(n as nat);
    }
    let ghost spec = lifted::<C>(x@, p as nat);
    let mut input: Vec<C> = Vec::new();
    let mut i: usize = 0;
    while i < p
        invariant
            n == x@.len(),
            p >= n,
            spec == lifted::<C>(x@, p as nat),
            i <= p,
            input@ =~= spec.subrange(0, i as int),
        decreases p - i,
    {
        if i < n {
            input.push(C::lift(x[i]));
        } else {
            input.push(C::czero());
        }
        i += 1;
    }
    assert(input@ =~= spec);
    proof {
        lemma_radix2_len(spec, false);
    }
    radix2_exec(&input, false)
}

/// Inverse of [`fft`]: the inverse transform of a spectrum whose length is a
/// power of two, returned as the magnitude of each sample. `LengthConstraint`
/// for any other length.
pub fn ifft<C: Spectral>(x: &Vec<C>) -> (r: Result<Vec<C::Real>, Error>)
    ensures
        is_pow2(x@.len()) ==> r.is_ok() && r.unwrap()@ == norms(radix2(x@, true)),
        !is_pow2(x@.len()) ==> r == Err::<Vec<C::Real>, Error>(Error::LengthConstraint),
{
    if !is_power_of_two(x.len()) {
        return Err(Error::LengthConstraint);
    }
    let out = radix2_exec(x, true);
    proof {
        lemma_radix2_len(x@, true);
    }
    let mut mags: Vec<C::Real> = Vec::new();
    let mut i: usize = 0;
    while i < out.len()
        invariant
            i <= out@.len(),
            mags@ =~= norms(out@).subrange(0, i as int),
        decreases out@.len() - i,
    {
        mags.push(out[i].norm());
        i += 1;
    }
    assert(mags@ =~= norms(out@));
    Ok(mags)
}

} // verus!
