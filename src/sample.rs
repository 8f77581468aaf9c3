use vstd::prelude::*;

verus! {

/// A real sample of a field or a kernel.
///
/// The spec functions give the meaning of the arithmetic; the executable
/// methods compute it. Every routine of this library states its result in
/// terms of these spec functions, in the order in which it combines samples.
/// Their default is an unspecified value, so that an implementation written
/// outside of Verus need only give the executable methods.
pub trait Sample: Copy + Sized {
    open spec fn zero_spec() -> Self {
        arbitrary()
    }

    open spec fn one_spec() -> Self {
        arbitrary()
    }

    open spec fn add_spec(self, rhs: Self) -> Self {
        arbitrary()
    }

    open spec fn mul_spec(self, rhs: Self) -> Self {
        arbitrary()
    }

    fn zero() -> (r: Self)
        ensures
            r == Self::zero_spec(),
    ;

    fn plus(self, rhs: Self) -> (r: Self)
        ensures
            r == self.add_spec(rhs),
    ;

    fn times(self, rhs: Self) -> (r: Self)
        ensures
            r == self.mul_spec(rhs),
    ;
}

/// The unit laws that make a kernel with a single one among zeros copy its input:
/// `0 + 0 == 0`, `x * 0 == 0`, `x + 0 == x`, `0 + x == x` and `x * 1 == x`.
pub open spec fn unit_laws<T: Sample>() -> bool {
    forall|x: T|
        #![trigger x.mul_spec(T::zero_spec())]
        #![trigger x.add_spec(T::zero_spec())]
        #![trigger T::zero_spec().add_spec(x)]
        #![trigger x.mul_spec(T::one_spec())]
        x.mul_spec(T::zero_spec()) == T::zero_spec() && x.add_spec(T::zero_spec()) == x
            && T::zero_spec().add_spec(x) == x && x.mul_spec(T::one_spec()) == x
}

/// Machine integers with wrapping arithmetic.
impl Sample for i64 {
    open spec fn zero_spec() -> i64 {
        0
    }

    open spec fn one_spec() -> i64 {
        1
    }

    open spec fn add_spec(self, rhs: i64) -> i64 {
        self.wrapping_add(rhs)
    }

    open spec fn mul_spec(self, rhs: i64) -> i64 {
        self.wrapping_mul(rhs)
    }

    fn zero() -> (r: i64) {
        0
    }

    fn plus(self, rhs: i64) -> (r: i64) {
        self.wrapping_add(rhs)
    }

    fn times(self, rhs: i64) -> (r: i64) {
        self.wrapping_mul(rhs)
    }
}

/// `i64` with wrapping arithmetic obeys the unit laws.
pub proof fn lemma_i64_unit_laws()
    ensures
        unit_laws::<i64>(),
{
    assert forall|x: i64|
        x.mul_spec(i64::zero_spec()) == i64::zero_spec() && x.add_spec(i64::zero_spec()) == x
            && i64::zero_spec().add_spec(x) == x && x.mul_spec(i64::one_spec()) == x by {
        assert(x.wrapping_mul(0) == 0) by (bit_vector);
        assert(x.wrapping_add(0) == x) by (bit_vector);
        assert((0i64).wrapping_add(x) == x) by (bit_vector);
        assert(x.wrapping_mul(1) == x) by (bit_vector);
    }
}

} // verus!
