//! Homogeneous tuples: points carry `w` one, vectors carry `w` zero.
use vstd::prelude::*;
use crate::scalar::{one, zero, Scalar};

verus! {

#[derive(Debug)]
pub struct Tuple4D<S> {
    pub x: S,
    pub y: S,
    pub z: S,
    pub w: S,
}

impl<S: Copy> Clone for Tuple4D<S> {
    fn clone(&self) -> (r: Self)
        ensures
            r == *self,
    {
        *self
    }
}

impl<S: Copy> Copy for Tuple4D<S> {
}

impl<S: Scalar> Tuple4D<S> {
    /// The point at the given coordinates.
    pub open spec fn point(x: S, y: S, z: S) -> Self {
        Tuple4D { x, y, z, w: one::<S>() }
    }

    /// The vector with the given components.
    pub open spec fn vector(x: S, y: S, z: S) -> Self {
        Tuple4D { x, y, z, w: zero::<S>() }
    }

    pub open spec fn is_point_spec(self) -> bool {
        self.w.same(one::<S>())
    }

    pub open spec fn is_vec_spec(self) -> bool {
        self.w.same(zero::<S>())
    }

    /// Component by component, `w` included.
    pub open spec fn sum(self, other: Self) -> Self {
        Tuple4D {
            x: self.x.sum(other.x),
            y: self.y.sum(other.y),
            z: self.z.sum(other.z),
            w: self.w.sum(other.w),
        }
    }

    /// Component by component, `w` included.
    pub open spec fn difference(self, other: Self) -> Self {
        Tuple4D {
            x: self.x.difference(other.x),
            y: self.y.difference(other.y),
            z: self.z.difference(other.z),
            w: self.w.difference(other.w),
        }
    }

    /// Every component, `w` included, times `by`.
    pub open spec fn scaled(self, by: S) -> Self {
        Tuple4D {
            x: self.x.product(by),
            y: self.y.product(by),
            z: self.z.product(by),
            w: self.w.product(by),
        }
    }

    /// `x*x' + y*y' + z*z'`, summed from the left; `w` takes no part.
    pub open spec fn dot_product(self, other: Self) -> S {
        self.x.product(other.x).sum(self.y.product(other.y)).sum(self.z.product(other.z))
    }

    /// The product with four weights, one per component, summed from the left.
    pub open spec fn weighted(self, weights: Seq<S>) -> S {
        self.x.product(weights[0]).sum(self.y.product(weights[1])).sum(
            self.z.product(weights[2]),
        ).sum(self.w.product(weights[3]))
    }

    /// The root of the dot product with itself.
    pub open spec fn length(self) -> S {
        self.dot_product(self).square_root()
    }

    /// Every component, `w` included, over the length.
    pub open spec fn unit(self) -> Self {
        Tuple4D {
            x: self.x.quotient(self.length()),
            y: self.y.quotient(self.length()),
            z: self.z.quotient(self.length()),
            w: self.w.quotient(self.length()),
        }
    }

    /// The vector at right angles to both, by the right-hand rule.
    pub open spec fn cross_product(self, other: Self) -> Self {
        Self::vector(
            self.y.product(other.z).difference(self.z.product(other.y)),
            self.z.product(other.x).difference(self.x.product(other.z)),
            self.x.product(other.y).difference(self.y.product(other.x)),
        )
    }

    /// The same tuple with `w` set to zero.
    pub open spec fn as_vector(self) -> Self {
        Tuple4D { x: self.x, y: self.y, z: self.z, w: zero::<S>() }
    }

    /// A tuple built as a vector is one.
    pub proof fn lemma_vector_is_vec(x: S, y: S, z: S)
        ensures
            Self::vector(x, y, z).is_vec_spec(),
    {
        S::law_ratio_ordered(0, 1);
    }

    /// A tuple built as a point is one.
    pub proof fn lemma_point_is_point(x: S, y: S, z: S)
        ensures
            Self::point(x, y, z).is_point_spec(),
    {
        S::law_ratio_ordered(1, 1);
    }

    pub fn new(x: S, y: S, z: S, w: S) -> (r: Self)
        ensures
            r == (Tuple4D { x, y, z, w }),
    {
        Tuple4D { x, y, z, w }
    }

    pub fn new_point(x: S, y: S, z: S) -> (r: Self)
        ensures
            r == Self::point(x, y, z),
            r.is_point_spec(),
    {
        proof {
            Self::lemma_point_is_point(x, y, z);
        }
        let w = S::from_ratio(1, 1);
        Tuple4D { x, y, z, w }
    }

    pub fn new_vector(x: S, y: S, z: S) -> (r: Self)
        ensures
            r == Self::vector(x, y, z),
            r.is_vec_spec(),
    {
        proof {
            Self::lemma_vector_is_vec(x, y, z);
        }
        let w = S::from_ratio(0, 1);
        Tuple4D { x, y, z, w }
    }

    pub fn is_point(&self) -> (r: bool)
        ensures
            r == self.is_point_spec(),
    {
        self.w.equals(S::from_ratio(1, 1))
    }

    pub fn is_vec(&self) -> (r: bool)
        ensures
            r == self.is_vec_spec(),
    {
        self.w.equals(S::from_ratio(0, 1))
    }

    pub fn add(&self, other: &Tuple4D<S>) -> (r: Self)
        ensures
            r == self.sum(*other),
    {
        let x = self.x.add(other.x);
        let y = self.y.add(other.y);
        let z = self.z.add(other.z);
        let w = self.w.add(other.w);
        Tuple4D { x, y, z, w }
    }

    pub fn sub(&self, other: &Tuple4D<S>) -> (r: Self)
        ensures
            r == self.difference(*other),
    {
        let x = self.x.sub(other.x);
        let y = self.y.sub(other.y);
        let z = self.z.sub(other.z);
        let w = self.w.sub(other.w);
        Tuple4D { x, y, z, w }
    }

    pub fn scale(&self, scaler: S) -> (r: Self)
        ensures
            r == self.scaled(scaler),
    {
        let x = self.x.mul(scaler);
        let y = self.y.mul(scaler);
        let z = self.z.mul(scaler);
        let w = self.w.mul(scaler);
        Tuple4D { x, y, z, w }
    }

    pub fn magnitude(&self) -> (r: S)
        requires
            self.is_vec_spec(),
        ensures
            r == self.length(),
    {
        self.dot(self).sqrt()
    }

    pub fn normalized(&self) -> (r: Self)
        requires
            self.is_vec_spec(),
        ensures
            r == self.unit(),
    {
        let mag = self.magnitude();
        let x = self.x.div(mag);
        let y = self.y.div(mag);
        let z = self.z.div(mag);
        let w = self.w.div(mag);
        Tuple4D { x, y, z, w }
    }

    pub fn dot(&self, other: &Tuple4D<S>) -> (r: S)
        requires
            self.is_vec_spec(),
            other.is_vec_spec(),
        ensures
            r == self.dot_product(*other),
    {
        let x = self.x.mul(other.x);
        let y = self.y.mul(other.y);
        let z = self.z.mul(other.z);
        x.add(y).add(z)
    }

    pub fn col_dot(&self, other: &[S]) -> (r: S)
        requires
            other@.len() == 4,
        ensures
            r == self.weighted(other@),
    {
        let x = self.x.mul(other[0]);
        let y = self.y.mul(other[1]);
        let z = self.z.mul(other[2]);
        let w = self.w.mul(other[3]);
        x.add(y).add(z).add(w)
    }

    pub fn cross(&self, other: &Tuple4D<S>) -> (r: Self)
        requires
            self.is_vec_spec(),
            other.is_vec_spec(),
        ensures
            r == self.cross_product(*other),
            r.is_vec_spec(),
    {
        let x = self.y.mul(other.z).sub(self.z.mul(other.y));
        let y = self.z.mul(other.x).sub(self.x.mul(other.z));
        let z = self.x.mul(other.y).sub(self.y.mul(other.x));
        Tuple4D::new_vector(x, y, z)
    }
}

} // verus!
