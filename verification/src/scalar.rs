//! The number type of the engine.
//!
//! Every algorithm in this crate is written once, over an abstract scalar,
//! and is proved against the arithmetic of that scalar as it is named here.
//! The proofs show which operations are applied to which operands and in
//! which order; they never round, reorder or regroup an expression.

use vstd::prelude::*;

verus! {

/// Arithmetic on the values of a series.
///
/// Each operation is a function of its operands alone: `add_spec`, `sub_spec`,
/// `mul_spec` and `from_int_spec` name what the executable methods return.
/// Nothing else is taken for granted. In particular addition need not be
/// associative, so that hardware floating point fits behind this trait; the
/// laws that do need algebraic identities list them in their `requires`
/// (see [`commutative_arithmetic`] and [`neutral_elements`]).
///
/// An implementation for a type that Verus cannot look into, such as a
/// hardware float, is taken on trust: it has to make each method return the
/// same value for the same operands, and give the `_spec` item the body of
/// the method it names.
pub trait Scalar: Copy {
    /// The scalar that stands for the integer `n`.
    spec fn from_int_spec(n: i64) -> Self;

    /// The sum `self + rhs`.
    spec fn add_spec(self, rhs: Self) -> Self;

    /// The difference `self - rhs`.
    spec fn sub_spec(self, rhs: Self) -> Self;

    /// The product `self * rhs`.
    spec fn mul_spec(self, rhs: Self) -> Self;

    fn from_int(n: i64) -> (r: Self)
        ensures
            r == Self::from_int_spec(n),
    ;

    fn add(self, rhs: Self) -> (r: Self)
        ensures
            r == self.add_spec(rhs),
    ;

    fn sub(self, rhs: Self) -> (r: Self)
        ensures
            r == self.sub_spec(rhs),
    ;

    fn mul(self, rhs: Self) -> (r: Self)
        ensures
            r == self.mul_spec(rhs),
    ;
}

/// The additive neutral element, as the scalar type writes it.
pub open spec fn zero<T: Scalar>() -> T {
    T::from_int_spec(0)
}

/// The multiplicative neutral element, as the scalar type writes it.
pub open spec fn one<T: Scalar>() -> T {
    T::from_int_spec(1)
}

/// `base` multiplied by itself `exp` times, starting from one and
/// multiplying on the right: `((1 * base) * base) * ...`.
pub open spec fn pow_spec<T: Scalar>(base: T, exp: nat) -> T
    decreases exp,
{
    if exp == 0 {
        one::<T>()
    } else {
        pow_spec(base, (exp - 1) as nat).mul_spec(base)
    }
}

/// Addition is commutative and associative, and multiplication is
/// commutative.
pub open spec fn commutative_arithmetic<T: Scalar>() -> bool {
    &&& forall|a: T, b: T| #[trigger] a.add_spec(b) == b.add_spec(a)
    &&& forall|a: T, b: T, c: T| #[trigger]
        a.add_spec(b).add_spec(c) == a.add_spec(b.add_spec(c))
    &&& forall|a: T, b: T| #[trigger] a.mul_spec(b) == b.mul_spec(a)
}

/// Zero is neutral for addition on the left, and one is neutral for
/// multiplication on both sides.
pub open spec fn neutral_elements<T: Scalar>() -> bool {
    &&& forall|a: T| #[trigger] zero::<T>().add_spec(a) == a
    &&& forall|a: T| #[trigger] one::<T>().mul_spec(a) == a
    &&& forall|a: T| #[trigger] a.mul_spec(one::<T>()) == a
}

/// Raises `base` to the power `exp` by repeated multiplication.
pub fn pow<T: Scalar>(base: T, exp: usize) -> (r: T)
    ensures
        r == pow_spec(base, exp as nat),
{
    let mut acc = T::from_int(1);
    let mut k: usize = 0;
    while k < exp
        invariant
            k <= exp,
            acc == pow_spec(base, k as nat),
        decreases exp - k,
    {
        acc = acc.mul(base);
        k = k + 1;
    }
    acc
}

/// The integers modulo 2^64, in two's complement: exact arithmetic as long
/// as nothing overflows, and a commutative ring even where something does.
impl Scalar for i64 {
    open spec fn from_int_spec(n: i64) -> i64 {
        n
    }

    open spec fn add_spec(self, rhs: i64) -> i64 {
        self.wrapping_add(rhs)
    }

    open spec fn sub_spec(self, rhs: i64) -> i64 {
        self.wrapping_sub(rhs)
    }

    open spec fn mul_spec(self, rhs: i64) -> i64 {
        self.wrapping_mul(rhs)
    }

    fn from_int(n: i64) -> (r: i64) {
        n
    }

    fn add(self, rhs: i64) -> (r: i64) {
        self.wrapping_add(rhs)
    }

    fn sub(self, rhs: i64) -> (r: i64) {
        self.wrapping_sub(rhs)
    }

    fn mul(self, rhs: i64) -> (r: i64) {
        self.wrapping_mul(rhs)
    }
}

/// Two's-complement integers satisfy every identity that the laws of this
/// crate ask of a scalar.
pub proof fn lemma_i64_arithmetic()
    ensures
        commutative_arithmetic::<i64>(),
        neutral_elements::<i64>(),
{
    assert forall|a: i64, b: i64| #[trigger] a.mul_spec(b) == b.mul_spec(a) by {
        assert(a * b == b * a) by (nonlinear_arith);
    }
    assert forall|a: i64| #[trigger] one::<i64>().mul_spec(a) == a by {
        assert(1 * a == a) by (nonlinear_arith);
    }
    assert forall|a: i64| #[trigger] a.mul_spec(one::<i64>()) == a by {
        assert(a * 1 == a) by (nonlinear_arith);
    }
}

} // verus!
