//! The arithmetic that the tracer computes with.
//!
//! A [`Scalar`] names the outcome of each operation by a specification
//! function and promises that the executable operation returns exactly that
//! outcome. Nothing is assumed of the arithmetic itself: sums need not be
//! associative and a value need not compare with itself, so rounding
//! arithmetic with unordered values fits as well as exact arithmetic does.
use vstd::prelude::*;

verus! {

/// An arithmetic with an order.
///
/// What is proved of the tracer is proved for every scalar that keeps this
/// contract: each operation returns what its specification function names,
/// and the order obeys the five laws. [`crate::fixed::Fixed`] is proved to
/// keep it. A scalar written elsewhere is taken at its word.
pub trait Scalar: Sized + Copy + 'static {
    /// The scalar that stands for the fraction `num / den`.
    spec fn ratio(num: i64, den: u64) -> Self;

    spec fn sum(self, other: Self) -> Self;

    spec fn difference(self, other: Self) -> Self;

    spec fn product(self, other: Self) -> Self;

    spec fn quotient(self, other: Self) -> Self;

    spec fn negation(self) -> Self;

    spec fn absolute(self) -> Self;

    spec fn square_root(self) -> Self;

    spec fn power(self, exponent: Self) -> Self;

    /// An angle in degrees as an angle in radians.
    spec fn radians(self) -> Self;

    /// The sine of an angle in radians.
    spec fn sine(self) -> Self;

    /// The cosine of an angle in radians.
    spec fn cosine(self) -> Self;

    /// The tangent of an angle in radians.
    spec fn tangent(self) -> Self;

    /// The scalar cut to a whole number that fits a machine index.
    spec fn whole(self) -> usize;

    /// Strictly less than.
    spec fn below(self, other: Self) -> bool;

    /// Equal in value. A value that is not the same as itself is unordered:
    /// it is neither below, nor the same as, nor above anything.
    spec fn same(self, other: Self) -> bool;

    /// A fraction with a positive denominator is an ordered value.
    proof fn law_ratio_ordered(num: i64, den: u64)
        requires
            den > 0,
        ensures
            Self::ratio(num, den).same(Self::ratio(num, den)),
    ;

    /// Only ordered values compare.
    proof fn law_compared_are_ordered(a: Self, b: Self)
        requires
            a.below(b) || a.same(b),
        ensures
            a.same(a),
            b.same(b),
    ;

    /// Two ordered values compare one way or the other.
    proof fn law_connected(a: Self, b: Self)
        requires
            a.same(a),
            b.same(b),
        ensures
            a.below(b) || a.same(b) || b.below(a),
    ;

    /// At most one of below, same and above holds, and same is symmetric.
    proof fn law_exclusive(a: Self, b: Self)
        ensures
            a.below(b) ==> !a.same(b) && !b.below(a),
            a.same(b) ==> b.same(a),
    ;

    /// Below-or-same is transitive, strictly so where one step is strict.
    proof fn law_transitive(a: Self, b: Self, c: Self)
        requires
            a.below(b) || a.same(b),
            b.below(c) || b.same(c),
        ensures
            a.below(c) || a.same(c),
            a.below(b) || b.below(c) ==> a.below(c),
    ;

    fn from_ratio(num: i64, den: u64) -> (r: Self)
        requires
            den > 0,
        ensures
            r == Self::ratio(num, den),
    ;

    fn add(self, other: Self) -> (r: Self)
        ensures
            r == self.sum(other),
    ;

    fn sub(self, other: Self) -> (r: Self)
        ensures
            r == self.difference(other),
    ;

    fn mul(self, other: Self) -> (r: Self)
        ensures
            r == self.product(other),
    ;

    fn div(self, other: Self) -> (r: Self)
        ensures
            r == self.quotient(other),
    ;

    fn neg(self) -> (r: Self)
        ensures
            r == self.negation(),
    ;

    fn abs(self) -> (r: Self)
        ensures
            r == self.absolute(),
    ;

    fn sqrt(self) -> (r: Self)
        ensures
            r == self.square_root(),
    ;

    fn powf(self, exponent: Self) -> (r: Self)
        ensures
            r == self.power(exponent),
    ;

    fn to_radians(self) -> (r: Self)
        ensures
            r == self.radians(),
    ;

    fn sin(self) -> (r: Self)
        ensures
            r == self.sine(),
    ;

    fn cos(self) -> (r: Self)
        ensures
            r == self.cosine(),
    ;

    fn tan(self) -> (r: Self)
        ensures
            r == self.tangent(),
    ;

    fn to_usize(self) -> (r: usize)
        ensures
            r == self.whole(),
    ;

    fn lt(self, other: Self) -> (r: bool)
        ensures
            r == self.below(other),
    ;

    fn equals(self, other: Self) -> (r: bool)
        ensures
            r == self.same(other),
    ;
}

/// The scalar zero.
pub open spec fn zero<S: Scalar>() -> S {
    S::ratio(0, 1)
}

/// The scalar one.
pub open spec fn one<S: Scalar>() -> S {
    S::ratio(1, 1)
}

/// Below or the same.
pub open spec fn at_most<S: Scalar>(a: S, b: S) -> bool {
    a.below(b) || a.same(b)
}

/// Whether `a` compares at all.
pub open spec fn ordered<S: Scalar>(a: S) -> bool {
    a.same(a)
}

/// `a <= b`.
pub fn le<S: Scalar>(a: S, b: S) -> (r: bool)
    ensures
        r == at_most(a, b),
{
    a.lt(b) || a.equals(b)
}

/// Whether `a` is zero.
pub fn is_zero<S: Scalar>(a: S) -> (r: bool)
    ensures
        r == a.same(zero::<S>()),
{
    a.equals(S::from_ratio(0, 1))
}

} // verus!
