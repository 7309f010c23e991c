//! Rays, intersections and the surfaces that rays meet.
//!
//! A surface answers in its own space: a ray is first carried there by the
//! inverse of the surface's placement. A surface is therefore built only on
//! a placement that has an inverse: `new` asks for one, `try_new` tests for
//! one, and the questions put to a surface ask that it be `placed`. Where
//! the carried ray is no longer a point and a vector, the answer is `None`.
use vstd::prelude::*;
use crate::material::Material;
use crate::matrices::Grid;
use crate::scalar::{at_most, le, one, zero, Scalar};
use crate::transformations::Transformation;
use crate::tuples::Tuple4D;

verus! {

#[derive(Debug)]
pub struct Ray<S> {
    pub origin: Tuple4D<S>,
    pub dir: Tuple4D<S>,
}

impl<S: Scalar> Ray<S> {
    /// The origin is a point and the direction a vector.
    pub open spec fn wf(&self) -> bool {
        self.origin.is_point_spec() && self.dir.is_vec_spec()
    }

    /// The point at distance `dist` along the ray.
    pub open spec fn position_spec(self, dist: S) -> Tuple4D<S> {
        self.origin.sum(self.dir.scaled(dist))
    }

    /// The ray with origin and direction carried by `by`, where these are
    /// again a point and a vector.
    pub open spec fn transformed(self, by: Grid<S>) -> Option<Ray<S>> {
        let origin = by.apply(self.origin);
        let dir = by.apply(self.dir);
        if origin.is_point_spec() && dir.is_vec_spec() {
            Some(Ray { origin, dir })
        } else {
            None
        }
    }

    pub fn new(origin: Tuple4D<S>, dir: Tuple4D<S>) -> (r: Self)
        requires
            origin.is_point_spec(),
            dir.is_vec_spec(),
        ensures
            r == (Ray { origin, dir }),
            r.wf(),
    {
        Ray { origin, dir }
    }

    pub fn position(&self, dist: S) -> (r: Tuple4D<S>)
        ensures
            r == self.position_spec(dist),
    {
        self.origin.add(&self.dir.scale(dist))
    }

    /// None where the carried origin is no point or the carried direction no
    /// vector.
    pub fn transform(&self, transformation: &Transformation<S>) -> (r: Option<Ray<S>>)
        requires
            transformation.wf(),
        ensures
            r == self.transformed(transformation@),
            r.is_some() ==> r.unwrap().wf(),
    {
        let origin = transformation.transform(&self.origin);
        let direction = transformation.transform(&self.dir);
        if origin.is_point() && direction.is_vec() {
            Some(Ray::new(origin, direction))
        } else {
            None
        }
    }
}

#[derive(Debug)]
pub struct Intersection<S> {
    pub dist: S,
    pub object_id: usize,
}

impl<S: Copy> Clone for Intersection<S> {
    fn clone(&self) -> (r: Self)
        ensures
            r == *self,
    {
        *self
    }
}

impl<S: Copy> Copy for Intersection<S> {
}

impl<S: Scalar> Intersection<S> {
    /// At or ahead of the ray's origin.
    pub open spec fn ahead(self) -> bool {
        at_most(zero::<S>(), self.dist)
    }

    /// Among the first `n` intersections, the place of the nearest one
    /// ahead; of several at the same distance, the first.
    pub open spec fn nearest(v: Seq<Intersection<S>>, n: nat) -> Option<int>
        decreases n,
    {
        if n == 0 {
            None
        } else {
            let before = Self::nearest(v, (n - 1) as nat);
            if !v[n - 1].ahead() {
                before
            } else {
                match before {
                    None => Some(n - 1),
                    Some(p) => if v[n - 1].dist.below(v[p].dist) {
                        Some(n - 1)
                    } else {
                        before
                    },
                }
            }
        }
    }

    /// What the ray sees: the nearest intersection ahead, if there is one.
    pub open spec fn visible(v: Seq<Intersection<S>>) -> Option<Intersection<S>> {
        match Self::nearest(v, v.len()) {
            None => None,
            Some(p) => Some(v[p]),
        }
    }

    /// Whether the intersection at place `p` lies ahead, is at most as far
    /// as every other one ahead, and is strictly nearer than each one ahead
    /// before it.
    pub open spec fn is_nearest(v: Seq<Intersection<S>>, n: nat, p: int) -> bool {
        &&& 0 <= p < n
        &&& v[p].ahead()
        &&& forall|i: int| 0 <= i < n && (#[trigger] v[i]).ahead() ==> at_most(v[p].dist, v[i].dist)
        &&& forall|i: int| 0 <= i < p && (#[trigger] v[i]).ahead() ==> v[p].dist.below(v[i].dist)
    }

    /// `nearest` is none exactly where nothing lies ahead; otherwise it is
    /// the place of the nearest intersection ahead.
    pub proof fn lemma_nearest(v: Seq<Intersection<S>>, n: nat)
        requires
            n <= v.len(),
        ensures
            match Self::nearest(v, n) {
                None => forall|i: int| 0 <= i < n ==> !(#[trigger] v[i]).ahead(),
                Some(p) => Self::is_nearest(v, n, p),
            },
        decreases n,
    {
        if n > 0 {
            Self::lemma_nearest(v, (n - 1) as nat);
            let c = v[n - 1];
            if c.ahead() {
                S::law_compared_are_ordered(zero::<S>(), c.dist);
                match Self::nearest(v, (n - 1) as nat) {
                    None => {},
                    Some(p) => {
                        S::law_compared_are_ordered(zero::<S>(), v[p].dist);
                        if c.dist.below(v[p].dist) {
                            assert forall|i: int| 0 <= i < n - 1 && (#[trigger] v[i]).ahead() implies c.dist.below(
                                v[i].dist,
                            ) by {
                                S::law_transitive(c.dist, v[p].dist, v[i].dist);
                            }
                        } else {
                            S::law_connected(v[p].dist, c.dist);
                        }
                    },
                }
            }
        }
    }

    /// In a sequence by ascending distance, what the ray sees is the first
    /// intersection ahead.
    pub proof fn lemma_first_ahead(v: Seq<Intersection<S>>, p: int)
        requires
            forall|i: int, j: int|
                0 <= i < j < v.len() ==> at_most(#[trigger] v[i].dist, #[trigger] v[j].dist),
            0 <= p < v.len(),
            v[p].ahead(),
            forall|i: int| 0 <= i < p ==> !(#[trigger] v[i]).ahead(),
        ensures
            Self::visible(v) == Some(v[p]),
    {
        Self::lemma_nearest(v, v.len());
        let q = Self::nearest(v, v.len()).unwrap();
        if q > p {
            assert(at_most(v[p].dist, v[q].dist));
            assert(v[q].dist.below(v[p].dist));
            S::law_exclusive(v[q].dist, v[p].dist);
            S::law_exclusive(v[p].dist, v[q].dist);
        }
    }

    /// The nearest intersection ahead of the ray's origin, in whatever order
    /// the intersections are given; none where all lie behind it or none is
    /// given.
    pub fn hit(intersections: &[Intersection<S>]) -> (r: Option<Intersection<S>>)
        ensures
            r == Self::visible(intersections@),
            r.is_none() <==> forall|i: int|
                0 <= i < intersections@.len() ==> !(#[trigger] intersections@[i]).ahead(),
            r.is_some() ==> exists|p: int|
                Self::is_nearest(intersections@, intersections@.len(), p) && r == Some(
                    #[trigger] intersections@[p],
                ),
    {
        proof {
            Self::lemma_nearest(intersections@, intersections@.len());
        }
        let mut best: Option<usize> = None;
        let mut k: usize = 0;
        while k < intersections.len()
            invariant
                k <= intersections@.len(),
                match best {
                    None => Self::nearest(intersections@, k as nat).is_none(),
                    Some(p) => p < k && Self::nearest(intersections@, k as nat) == Some(p as int),
                },
            decreases intersections@.len() - k,
        {
            let c = intersections[k];
            if le(S::from_ratio(0, 1), c.dist) {
                match best {
                    None => {
                        best = Some(k);
                    },
                    Some(p) => {
                        if c.dist.lt(intersections[p].dist) {
                            best = Some(k);
                        }
                    },
                }
            }
            k += 1;
        }
        match best {
            None => None,
            Some(p) => Some(intersections[p]),
        }
    }
}

/// `input` mirrored at the surface with the given normal:
/// `input - normal * (2 * input.normal)`.
pub open spec fn reflected<S: Scalar>(input: Tuple4D<S>, normal: Tuple4D<S>) -> Tuple4D<S> {
    input.difference(normal.scaled(S::ratio(2, 1).product(input.dot_product(normal))))
}

pub fn reflect<S: Scalar>(input: &Tuple4D<S>, normal: &Tuple4D<S>) -> (r: Tuple4D<S>)
    requires
        input.is_vec_spec(),
        normal.is_vec_spec(),
    ensures
        r == reflected(*input, *normal),
{
    input.sub(&normal.scale(S::from_ratio(2, 1).mul(input.dot(normal))))
}

/// A surface that rays can meet.
pub trait Primitive<S: Scalar> {
    spec fn id_spec(&self) -> usize;

    /// Whether the surface has a place in the world, that is whether its
    /// placement has an inverse. A surface without one answers no ray.
    spec fn placed(&self) -> bool;

    /// Where `ray` meets the surface, each place with the surface's id.
    /// None where the ray carried to the surface's space is no longer a
    /// point and a vector.
    spec fn intersect_spec(&self, ray: Ray<S>) -> Option<Seq<Intersection<S>>>;

    /// The normal of the surface at the point `p` of the world.
    spec fn normal_spec(&self, p: Tuple4D<S>) -> Tuple4D<S>;

    spec fn material_spec(&self) -> Material<S>;

    fn object_id(&self) -> (r: usize)
        ensures
            r == self.id_spec(),
    ;

    fn intersect(&self, ray: &Ray<S>) -> (r: Option<Vec<Intersection<S>>>)
        requires
            self.placed(),
            ray.wf(),
        ensures
            match r {
                None => self.intersect_spec(*ray).is_none(),
                Some(v) => self.intersect_spec(*ray) == Some(v@),
            },
    ;

    fn surface_normal(&self, p: &Tuple4D<S>) -> (r: Tuple4D<S>)
        requires
            self.placed(),
        ensures
            r == self.normal_spec(*p),
    ;

    fn material(&self) -> (r: Material<S>)
        ensures
            r == self.material_spec(),
    ;
}

/// What shading needs to know of a hit, worked out once.
pub struct IntersectionPrecomp<S> {
    pub intersection: Intersection<S>,
    pub point: Tuple4D<S>,
    pub eye: Tuple4D<S>,
    pub normal: Tuple4D<S>,
    pub hit_inside: bool,
    pub reflection: Tuple4D<S>,
}

impl<S: Scalar> IntersectionPrecomp<S> {
    /// The record of a hit of `ray` on a surface whose normal at the hit is
    /// `outward`. The eye looks back along the ray. The hit is inside where
    /// the normal points away from the eye; the normal is then turned
    /// round. The reflection mirrors the ray's direction at the normal so
    /// turned. None where the normal, the turned normal or the eye is no
    /// vector.
    pub open spec fn prepared(
        intersection: Intersection<S>,
        ray: Ray<S>,
        outward: Tuple4D<S>,
    ) -> Option<Self> {
        let eye = ray.dir.scaled(S::ratio((-1) as i64, 1));
        if !outward.is_vec_spec() || !eye.is_vec_spec() {
            None
        } else {
            let hit_inside = outward.dot_product(eye).below(zero::<S>());
            let normal = if hit_inside {
                outward.scaled(S::ratio((-1) as i64, 1))
            } else {
                outward
            };
            if !normal.is_vec_spec() {
                None
            } else {
                Some(
                    IntersectionPrecomp {
                        intersection,
                        point: ray.position_spec(intersection.dist),
                        eye,
                        normal,
                        hit_inside,
                        reflection: reflected(ray.dir, normal),
                    },
                )
            }
        }
    }

    /// The record of a hit on a surface that gave `outward` as its normal
    /// at the hit.
    pub fn with_normal(intersection: &Intersection<S>, ray: &Ray<S>, outward: Tuple4D<S>) -> (r:
        Option<Self>)
        requires
            ray.wf(),
        ensures
            r == Self::prepared(*intersection, *ray, outward),
    {
        let point = ray.position(intersection.dist);
        let eye = ray.dir.scale(S::from_ratio(-1, 1));
        if !outward.is_vec() || !eye.is_vec() {
            return None;
        }
        let hit_inside = outward.dot(&eye).lt(S::from_ratio(0, 1));
        let normal = if hit_inside {
            outward.scale(S::from_ratio(-1, 1))
        } else {
            outward
        };
        if !normal.is_vec() {
            return None;
        }
        let reflection = reflect(&ray.dir, &normal);
        Some(
            IntersectionPrecomp {
                intersection: *intersection,
                point,
                eye,
                normal,
                hit_inside,
                reflection,
            },
        )
    }

    /// The record of a hit of `ray` on `shape`, with the normal that the
    /// shape gives at the point of the hit.
    pub fn new(intersection: &Intersection<S>, ray: &Ray<S>, shape: &dyn Primitive<S>) -> (r:
        Option<Self>)
        requires
            ray.wf(),
            shape.placed(),
        ensures
            r == Self::prepared(
                *intersection,
                *ray,
                shape.normal_spec(ray.position_spec(intersection.dist)),
            ),
    {
        let point = ray.position(intersection.dist);
        Self::with_normal(intersection, ray, shape.surface_normal(&point))
    }
}

/// The inverse of a placement: none unless the placement is a well-formed
/// four-by-four matrix whose determinant is not zero.
pub open spec fn inverse_placement<S: Scalar>(placement: Grid<S>) -> Option<Grid<S>> {
    if placement.well_formed() && placement.rows == 4 && placement.cols == 4 {
        placement.inverse()
    } else {
        None
    }
}

/// Whether `placement` places a surface: whether it has an inverse.
pub open spec fn has_place<S: Scalar>(placement: Grid<S>) -> bool {
    inverse_placement(placement).is_some()
}

/// `ray` in the space of a surface placed by `placement`.
pub open spec fn local_ray<S: Scalar>(placement: Grid<S>, ray: Ray<S>) -> Option<Ray<S>> {
    match inverse_placement(placement) {
        None => None,
        Some(inverse) => ray.transformed(inverse),
    }
}

/// The normal `object_normal` of a surface, carried to the world by the
/// transposed inverse of the surface's placement, with `w` set to zero, at
/// unit length.
pub open spec fn world_normal<S: Scalar>(inverse: Grid<S>, object_normal: Tuple4D<S>) -> Tuple4D<S> {
    inverse.transposed().apply(object_normal).as_vector().unit()
}

/// Where `ray` meets the unit sphere placed by `placement`.
pub open spec fn sphere_meets<S: Scalar>(placement: Grid<S>, id: usize, ray: Ray<S>) -> Option<
    Seq<Intersection<S>>,
> {
    match local_ray(placement, ray) {
        None => None,
        Some(local) => sphere_roots(local, id),
    }
}

/// The normal at the point `p` of the world of the unit sphere placed by
/// `placement`: in the sphere's space the normal at a point is the point
/// itself, taken from the centre.
pub open spec fn sphere_normal<S: Scalar>(placement: Grid<S>, p: Tuple4D<S>) -> Tuple4D<S> {
    let inverse = inverse_placement(placement).unwrap();
    world_normal(
        inverse,
        inverse.apply(p).difference(Tuple4D::point(zero::<S>(), zero::<S>(), zero::<S>())),
    )
}

/// Where `ray` meets the plane placed by `placement`.
pub open spec fn plane_meets<S: Scalar>(placement: Grid<S>, id: usize, ray: Ray<S>) -> Option<
    Seq<Intersection<S>>,
> {
    match local_ray(placement, ray) {
        None => None,
        Some(local) => Some(plane_root(local, id)),
    }
}

/// The normal of the plane placed by `placement`, the same at every point.
pub open spec fn plane_normal<S: Scalar>(placement: Grid<S>) -> Tuple4D<S> {
    world_normal(
        inverse_placement(placement).unwrap(),
        Tuple4D::vector(zero::<S>(), one::<S>(), zero::<S>()),
    )
}

/// The two roots of the unit sphere's quadratic along `local`,
/// `(-b - sqrt(d)) / 2a` and `(-b + sqrt(d)) / 2a` with `a = dir.dir`,
/// `b = 2 * dir.from_centre`, `c = from_centre.from_centre - 1` and
/// `d = b*b - 4ac`, whatever their sign; the second root comes first should
/// it be below the first. Nothing where `d` is below zero. None where the
/// ray's origin taken from the centre is no vector.
pub open spec fn sphere_roots<S: Scalar>(local: Ray<S>, id: usize) -> Option<Seq<Intersection<S>>> {
    let sphere2ray = local.origin.difference(
        Tuple4D::point(zero::<S>(), zero::<S>(), zero::<S>()),
    );
    if !sphere2ray.is_vec_spec() {
        None
    } else {
        let a = local.dir.dot_product(local.dir);
        let b = S::ratio(2, 1).product(local.dir.dot_product(sphere2ray));
        let c = sphere2ray.dot_product(sphere2ray).difference(one::<S>());
        let discriminant = b.product(b).difference(S::ratio(4, 1).product(a).product(c));
        if discriminant.below(zero::<S>()) {
            Some(Seq::empty())
        } else {
            let t1 = b.negation().difference(discriminant.square_root()).quotient(
                S::ratio(2, 1).product(a),
            );
            let t2 = b.negation().sum(discriminant.square_root()).quotient(
                S::ratio(2, 1).product(a),
            );
            if t2.below(t1) {
                Some(
                    seq![
                        Intersection { dist: t2, object_id: id },
                        Intersection { dist: t1, object_id: id },
                    ],
                )
            } else {
                Some(
                    seq![
                        Intersection { dist: t1, object_id: id },
                        Intersection { dist: t2, object_id: id },
                    ],
                )
            }
        }
    }
}

/// The sphere is met twice or not at all, each time under its own id, and
/// the second meeting is not nearer than the first.
pub proof fn lemma_sphere_roots<S: Scalar>(local: Ray<S>, id: usize)
    ensures
        match sphere_roots(local, id) {
            None => true,
            Some(v) => v.len() == 0 || {
                &&& v.len() == 2
                &&& v[0].object_id == id
                &&& v[1].object_id == id
                &&& !v[1].dist.below(v[0].dist)
            },
        },
{
    match sphere_roots(local, id) {
        None => {},
        Some(v) => {
            if v.len() != 0 {
                S::law_exclusive(v[0].dist, v[1].dist);
            }
        },
    }
}

/// The plane is met once or not at all, under its own id.
pub proof fn lemma_plane_root<S: Scalar>(local: Ray<S>, id: usize)
    ensures
        plane_root(local, id).len() <= 1,
        plane_root(local, id).len() == 1 ==> plane_root(local, id)[0].object_id == id,
{
}

/// Where `local` meets the plane `y = 0`; nothing where the ray runs along
/// the plane, that is where the size of its `y` direction is below 1e-8.
pub open spec fn plane_root<S: Scalar>(local: Ray<S>, id: usize) -> Seq<Intersection<S>> {
    if local.dir.y.absolute().below(S::ratio(1, 100000000)) {
        Seq::empty()
    } else {
        seq![Intersection { dist: local.origin.y.negation().quotient(local.dir.y), object_id: id }]
    }
}

/// The inverse of a placement, for a placement of any shape.
pub(crate) fn invert<S: Scalar>(placement: &Transformation<S>) -> (r: Option<Transformation<S>>)
    ensures
        match r {
            None => !has_place(placement@),
            Some(t) => t.wf() && inverse_placement(placement@) == Some(t@),
        },
{
    let m = &placement.transformation;
    if m.rows == 4 && m.cols == 4 && m.x.len() == 16 {
        placement.inverse()
    } else {
        None
    }
}

/// The inverse of a placement that has one.
pub(crate) fn inverse_of<S: Scalar>(placement: &Transformation<S>) -> (r: Transformation<S>)
    requires
        has_place(placement@),
    ensures
        r.wf(),
        inverse_placement(placement@) == Some(r@),
{
    placement.inverse().unwrap()
}

fn to_world<S: Scalar>(inverse: &Transformation<S>, object_normal: &Tuple4D<S>) -> (r: Tuple4D<S>)
    requires
        inverse.wf(),
    ensures
        r == world_normal(inverse@, *object_normal),
{
    let mut n = inverse.transpose().transform(object_normal);
    n.w = S::from_ratio(0, 1);
    proof {
        S::law_ratio_ordered(0, 1);
    }
    n.normalized()
}

/// The unit sphere about the origin of its own space.
pub struct UnitSphere<S> {
    pub id: usize,
    pub transformation: Transformation<S>,
    pub material: Material<S>,
}

impl<S: Scalar> UnitSphere<S> {
    /// A sphere placed by a transformation that has an inverse.
    pub fn new(id: usize, transformation: Transformation<S>, material: Material<S>) -> (r: Self)
        requires
            has_place(transformation@),
        ensures
            r == (UnitSphere { id, transformation, material }),
            r.placed(),
    {
        UnitSphere { id, transformation, material }
    }

    /// The sphere, where the transformation has an inverse; none where it
    /// has not.
    pub fn try_new(id: usize, transformation: Transformation<S>, material: Material<S>) -> (r:
        Option<Self>)
        ensures
            r.is_some() <==> has_place(transformation@),
            r.is_some() ==> r.unwrap() == (UnitSphere { id, transformation, material })
                && r.unwrap().placed(),
    {
        if invert(&transformation).is_some() {
            Some(UnitSphere::new(id, transformation, material))
        } else {
            None
        }
    }
}

impl<S: Scalar> Primitive<S> for UnitSphere<S> {
    open spec fn id_spec(&self) -> usize {
        self.id
    }

    open spec fn placed(&self) -> bool {
        has_place(self.transformation@)
    }

    open spec fn intersect_spec(&self, ray: Ray<S>) -> Option<Seq<Intersection<S>>> {
        sphere_meets(self.transformation@, self.id, ray)
    }

    open spec fn normal_spec(&self, p: Tuple4D<S>) -> Tuple4D<S> {
        sphere_normal(self.transformation@, p)
    }

    open spec fn material_spec(&self) -> Material<S> {
        self.material
    }

    fn material(&self) -> (r: Material<S>) {
        self.material
    }

    fn object_id(&self) -> (r: usize) {
        self.id
    }

    fn intersect(&self, ray: &Ray<S>) -> (r: Option<Vec<Intersection<S>>>) {
        let r = match ray.transform(&inverse_of(&self.transformation)) {
            None => {
                return None;
            },
            Some(r) => r,
        };
        let o = S::from_ratio(0, 1);
        let sphere2ray = r.origin.sub(&Tuple4D::new_point(o, o, o));
        if !sphere2ray.is_vec() {
            return None;
        }
        let a = r.dir.dot(&r.dir);
        let b = S::from_ratio(2, 1).mul(r.dir.dot(&sphere2ray));
        let c = sphere2ray.dot(&sphere2ray).sub(S::from_ratio(1, 1));
        let discriminant = b.mul(b).sub(S::from_ratio(4, 1).mul(a).mul(c));
        if discriminant.lt(S::from_ratio(0, 1)) {
            Some(Vec::new())
        } else {
            let t1 = b.neg().sub(discriminant.sqrt()).div(S::from_ratio(2, 1).mul(a));
            let t2 = b.neg().add(discriminant.sqrt()).div(S::from_ratio(2, 1).mul(a));
            let found = if t2.lt(t1) {
                vec![
                    Intersection { dist: t2, object_id: self.id },
                    Intersection { dist: t1, object_id: self.id },
                ]
            } else {
                vec![
                    Intersection { dist: t1, object_id: self.id },
                    Intersection { dist: t2, object_id: self.id },
                ]
            };
            assert(found@ =~= sphere_roots(r, self.id).unwrap());
            Some(found)
        }
    }

    fn surface_normal(&self, world_point: &Tuple4D<S>) -> (r: Tuple4D<S>) {
        let inverse = inverse_of(&self.transformation);
        let o = S::from_ratio(0, 1);
        let object_point = inverse.transform(world_point);
        let object_normal = object_point.sub(&Tuple4D::new_point(o, o, o));
        to_world(&inverse, &object_normal)
    }
}

/// The plane `y = 0` of its own space, with the normal along `y`.
pub struct Plane<S> {
    pub id: usize,
    pub transformation: Transformation<S>,
    pub material: Material<S>,
}

impl<S: Scalar> Plane<S> {
    /// A plane placed by a transformation that has an inverse.
    pub fn new(id: usize, transformation: Transformation<S>, material: Material<S>) -> (r: Self)
        requires
            has_place(transformation@),
        ensures
            r == (Plane { id, transformation, material }),
            r.placed(),
    {
        Plane { id, transformation, material }
    }

    /// The plane, where the transformation has an inverse; none where it
    /// has not.
    pub fn try_new(id: usize, transformation: Transformation<S>, material: Material<S>) -> (r:
        Option<Self>)
        ensures
            r.is_some() <==> has_place(transformation@),
            r.is_some() ==> r.unwrap() == (Plane { id, transformation, material })
                && r.unwrap().placed(),
    {
        if invert(&transformation).is_some() {
            Some(Plane::new(id, transformation, material))
        } else {
            None
        }
    }
}

impl<S: Scalar> Primitive<S> for Plane<S> {
    open spec fn id_spec(&self) -> usize {
        self.id
    }

    open spec fn placed(&self) -> bool {
        has_place(self.transformation@)
    }

    open spec fn intersect_spec(&self, ray: Ray<S>) -> Option<Seq<Intersection<S>>> {
        plane_meets(self.transformation@, self.id, ray)
    }

    open spec fn normal_spec(&self, p: Tuple4D<S>) -> Tuple4D<S> {
        plane_normal(self.transformation@)
    }

    open spec fn material_spec(&self) -> Material<S> {
        self.material
    }

    fn object_id(&self) -> (r: usize) {
        self.id
    }

    fn intersect(&self, ray: &Ray<S>) -> (r: Option<Vec<Intersection<S>>>) {
        let r = match ray.transform(&inverse_of(&self.transformation)) {
            None => {
                return None;
            },
            Some(r) => r,
        };
        if r.dir.y.abs().lt(S::from_ratio(1, 100000000)) {
            Some(Vec::new())
        } else {
            let t = r.origin.y.neg().div(r.dir.y);
            let found = vec![Intersection { dist: t, object_id: self.id }];
            assert(found@ =~= plane_root(r, self.id));
            Some(found)
        }
    }

    fn surface_normal(&self, _world_point: &Tuple4D<S>) -> (r: Tuple4D<S>) {
        let inverse = inverse_of(&self.transformation);
        let object_normal = Tuple4D::new_vector(
            S::from_ratio(0, 1),
            S::from_ratio(1, 1),
            S::from_ratio(0, 1),
        );
        to_world(&inverse, &object_normal)
    }

    fn material(&self) -> (r: Material<S>) {
        self.material
    }
}

} // verus!
