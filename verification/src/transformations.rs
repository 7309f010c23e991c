//! Placement transforms: four-by-four matrices that act on tuples.
use vstd::prelude::*;
use crate::matrices::{Grid, Mat};
use crate::scalar::{one, zero, Scalar};
use crate::tuples::Tuple4D;

verus! {

pub struct Transformation<S> {
    pub transformation: Mat<S>,
}

impl<S: Scalar> View for Transformation<S> {
    type V = Grid<S>;

    open spec fn view(&self) -> Grid<S> {
        self.transformation@
    }
}

/// The four-by-four matrix with the given sixteen cells.
pub open spec fn grid4<S: Scalar>(cells: Seq<S>) -> Grid<S> {
    Grid { rows: 4, cols: 4, cells }
}

pub open spec fn identity_grid<S: Scalar>() -> Grid<S> {
    let o = zero::<S>();
    let i = one::<S>();
    grid4(seq![i, o, o, o, o, i, o, o, o, o, i, o, o, o, o, i])
}

pub open spec fn translation_grid<S: Scalar>(by: Tuple4D<S>) -> Grid<S> {
    let o = zero::<S>();
    let i = one::<S>();
    grid4(seq![i, o, o, by.x, o, i, o, by.y, o, o, i, by.z, o, o, o, i])
}

pub open spec fn scale_grid<S: Scalar>(by: Tuple4D<S>) -> Grid<S> {
    let o = zero::<S>();
    let i = one::<S>();
    grid4(seq![by.x, o, o, o, o, by.y, o, o, o, o, by.z, o, o, o, o, i])
}

/// The turn about the x axis by `by` degrees.
pub open spec fn rotate_x_grid<S: Scalar>(by: S) -> Grid<S> {
    let o = zero::<S>();
    let i = one::<S>();
    let cos = by.radians().cosine();
    let sin = by.radians().sine();
    grid4(seq![i, o, o, o, o, cos, sin.negation(), o, o, sin, cos, o, o, o, o, i])
}

/// The turn about the y axis by `by` degrees.
pub open spec fn rotate_y_grid<S: Scalar>(by: S) -> Grid<S> {
    let o = zero::<S>();
    let i = one::<S>();
    let cos = by.radians().cosine();
    let sin = by.radians().sine();
    grid4(seq![cos, o, sin, o, o, i, o, o, sin.negation(), o, cos, o, o, o, o, i])
}

/// The turn about the z axis by `by` degrees.
pub open spec fn rotate_z_grid<S: Scalar>(by: S) -> Grid<S> {
    let o = zero::<S>();
    let i = one::<S>();
    let cos = by.radians().cosine();
    let sin = by.radians().sine();
    grid4(seq![cos, sin.negation(), o, o, sin, cos, o, o, o, o, i, o, o, o, o, i])
}

/// The direction in which a camera at `from` looks toward `to`.
pub open spec fn forward<S: Scalar>(from: Tuple4D<S>, to: Tuple4D<S>) -> Tuple4D<S> {
    to.difference(from).unit()
}

/// The rows left, true up and minus forward, with the fourth row and column
/// of the identity.
pub open spec fn orientation_grid<S: Scalar>(
    from: Tuple4D<S>,
    to: Tuple4D<S>,
    up: Tuple4D<S>,
) -> Grid<S> {
    let o = zero::<S>();
    let i = one::<S>();
    let fwd = forward(from, to);
    let left = fwd.cross_product(up.unit());
    let true_up = left.cross_product(fwd);
    grid4(
        seq![
            left.x,
            left.y,
            left.z,
            o,
            true_up.x,
            true_up.y,
            true_up.z,
            o,
            fwd.x.negation(),
            fwd.y.negation(),
            fwd.z.negation(),
            o,
            o,
            o,
            o,
            i,
        ],
    )
}

/// The orientation times the move of `from` to the origin.
pub open spec fn view_grid<S: Scalar>(
    from: Tuple4D<S>,
    to: Tuple4D<S>,
    up: Tuple4D<S>,
) -> Grid<S> {
    orientation_grid(from, to, up).product(
        translation_grid(
            Tuple4D::point(from.x.negation(), from.y.negation(), from.z.negation()),
        ),
    )
}

/// The view transform, where all that has to be a vector is one.
pub open spec fn view_spec<S: Scalar>(
    from: Tuple4D<S>,
    to: Tuple4D<S>,
    up: Tuple4D<S>,
) -> Option<Grid<S>> {
    if to.difference(from).is_vec_spec() && up.is_vec_spec() && forward(from, to).is_vec_spec()
        && up.unit().is_vec_spec() {
        Some(view_grid(from, to, up))
    } else {
        None
    }
}

/// The product of the first `n` matrices, taken from the left: the first
/// matrix stands leftmost.
pub open spec fn chained<S: Scalar>(transformations: Seq<Transformation<S>>, n: nat) -> Grid<S>
    decreases n,
{
    if n <= 1 {
        transformations[0]@
    } else {
        chained(transformations, (n - 1) as nat).product(transformations[n - 1]@)
    }
}

fn square4<S: Scalar>(cells: Vec<S>) -> (r: Transformation<S>)
    requires
        cells@.len() == 16,
    ensures
        r.wf(),
        r@ == grid4(cells@),
{
    let ghost given = cells@;
    let transformation = Mat::new(cells, 4);
    assert(given.subrange(0, 16) =~= given);
    Transformation { transformation }
}

impl<S: Scalar> Transformation<S> {
    /// The matrix is four by four.
    pub open spec fn wf(&self) -> bool {
        &&& self.transformation.wf()
        &&& self.transformation.rows == 4
        &&& self.transformation.cols == 4
    }

    /// The transform of a camera at `from` that looks toward `to`, with `up`
    /// giving the upward side. None where `to - from` or `up` is no vector,
    /// before or after it is brought to unit length.
    pub fn view(from: Tuple4D<S>, to: Tuple4D<S>, up: Tuple4D<S>) -> (r: Option<Self>)
        ensures
            match r {
                None => view_spec(from, to, up).is_none(),
                Some(t) => t.wf() && view_spec(from, to, up) == Some(t@),
            },
    {
        let ahead = to.sub(&from);
        if !ahead.is_vec() || !up.is_vec() {
            return None;
        }
        let fwd = ahead.normalized();
        let up_norm = up.normalized();
        if !fwd.is_vec() || !up_norm.is_vec() {
            return None;
        }
        let left = fwd.cross(&up_norm);
        let true_up = left.cross(&fwd);
        let o = S::from_ratio(0, 1);
        let i = S::from_ratio(1, 1);
        let cells = vec![
            left.x,
            left.y,
            left.z,
            o,
            true_up.x,
            true_up.y,
            true_up.z,
            o,
            fwd.x.neg(),
            fwd.y.neg(),
            fwd.z.neg(),
            o,
            o,
            o,
            o,
            i,
        ];
        assert(cells@ =~= orientation_grid(from, to, up).cells);
        let orientation = square4(cells);
        let trans = Transformation::translation(
            Tuple4D::new_point(from.x.neg(), from.y.neg(), from.z.neg()),
        );
        Some(
            Transformation {
                transformation: orientation.transformation.mat_mul(&trans.transformation),
            },
        )
    }

    /// The product of the given transforms, the first one leftmost.
    pub fn chain(transformations: &[Transformation<S>]) -> (r: Self)
        requires
            transformations@.len() >= 1,
            forall|i: int| 0 <= i < transformations@.len() ==> (#[trigger] transformations@[i]).wf(),
        ensures
            r.wf(),
            r@ == chained(transformations@, transformations@.len()),
    {
        let mut transformation = transformations[0].transformation.clone();
        let mut i: usize = 1;
        while i < transformations.len()
            invariant
                1 <= i <= transformations@.len(),
                forall|k: int|
                    0 <= k < transformations@.len() ==> (#[trigger] transformations@[k]).wf(),
                transformation.wf(),
                transformation.rows == 4,
                transformation.cols == 4,
                transformation@ == chained(transformations@, i as nat),
            decreases transformations@.len() - i,
        {
            transformation = transformation.mat_mul(&transformations[i].transformation);
            i += 1;
        }
        Transformation { transformation }
    }

    pub fn identity() -> (r: Self)
        ensures
            r.wf(),
            r@ == identity_grid::<S>(),
    {
        let o = S::from_ratio(0, 1);
        let i = S::from_ratio(1, 1);
        let cells = vec![i, o, o, o, o, i, o, o, o, o, i, o, o, o, o, i];
        assert(cells@ =~= identity_grid::<S>().cells);
        square4(cells)
    }

    pub fn translation(by: Tuple4D<S>) -> (r: Self)
        ensures
            r.wf(),
            r@ == translation_grid(by),
    {
        let o = S::from_ratio(0, 1);
        let i = S::from_ratio(1, 1);
        let cells = vec![i, o, o, by.x, o, i, o, by.y, o, o, i, by.z, o, o, o, i];
        assert(cells@ =~= translation_grid(by).cells);
        square4(cells)
    }

    pub fn scale(by: Tuple4D<S>) -> (r: Self)
        ensures
            r.wf(),
            r@ == scale_grid(by),
    {
        let o = S::from_ratio(0, 1);
        let i = S::from_ratio(1, 1);
        let cells = vec![by.x, o, o, o, o, by.y, o, o, o, o, by.z, o, o, o, o, i];
        assert(cells@ =~= scale_grid(by).cells);
        square4(cells)
    }

    /// The turn about the x axis by `by` degrees.
    pub fn rotate_x(by: S) -> (r: Self)
        ensures
            r.wf(),
            r@ == rotate_x_grid(by),
    {
        let r = by.to_radians();
        let cos = r.cos();
        let sin = r.sin();
        let o = S::from_ratio(0, 1);
        let i = S::from_ratio(1, 1);
        let cells = vec![i, o, o, o, o, cos, sin.neg(), o, o, sin, cos, o, o, o, o, i];
        assert(cells@ =~= rotate_x_grid(by).cells);
        square4(cells)
    }

    /// The turn about the y axis by `by` degrees.
    pub fn rotate_y(by: S) -> (r: Self)
        ensures
            r.wf(),
            r@ == rotate_y_grid(by),
    {
        let r = by.to_radians();
        let cos = r.cos();
        let sin = r.sin();
        let o = S::from_ratio(0, 1);
        let i = S::from_ratio(1, 1);
        let cells = vec![cos, o, sin, o, o, i, o, o, sin.neg(), o, cos, o, o, o, o, i];
        assert(cells@ =~= rotate_y_grid(by).cells);
        square4(cells)
    }

    /// The turn about the z axis by `by` degrees.
    pub fn rotate_z(by: S) -> (r: Self)
        ensures
            r.wf(),
            r@ == rotate_z_grid(by),
    {
        let r = by.to_radians();
        let cos = r.cos();
        let sin = r.sin();
        let o = S::from_ratio(0, 1);
        let i = S::from_ratio(1, 1);
        let cells = vec![cos, sin.neg(), o, o, sin, cos, o, o, o, o, i, o, o, o, o, i];
        assert(cells@ =~= rotate_z_grid(by).cells);
        square4(cells)
    }

    /// None where the determinant is zero.
    pub fn inverse(&self) -> (r: Option<Transformation<S>>)
        requires
            self.wf(),
        ensures
            match r {
                None => self@.inverse().is_none(),
                Some(t) => t.wf() && self@.inverse() == Some(t@),
            },
    {
        match self.transformation.inverse() {
            None => None,
            Some(mat) => Some(Transformation { transformation: mat }),
        }
    }

    pub fn transpose(&self) -> (r: Self)
        requires
            self.wf(),
        ensures
            r.wf(),
            r@ == self@.transposed(),
    {
        Transformation { transformation: self.transformation.transpose() }
    }

    pub fn transform(&self, tuple: &Tuple4D<S>) -> (r: Tuple4D<S>)
        requires
            self.wf(),
        ensures
            r == self@.apply(*tuple),
    {
        self.transformation.mul(tuple)
    }
}

} // verus!
