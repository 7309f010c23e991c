//! The world of surfaces and lights, and the colour that a ray brings back.
use vstd::prelude::*;
use crate::geometry::{
    has_place, inverse_of, inverse_placement, invert, sphere_meets, sphere_normal, Intersection,
    IntersectionPrecomp, Primitive, Ray, UnitSphere,
};
use crate::image::{Color, Image};
use crate::light::PointLight;
use crate::material::Material;
use crate::matrices::{lemma_cell_index, lemma_split_index, Grid};
use crate::scalar::{at_most, le, one, ordered, zero, Scalar};
use crate::sorting::{
    all_ordered, by_distance, is_ascending, lemma_by_distance_ascends, lemma_by_distance_holds,
    lemma_same_members, sort_by_distance,
};
use crate::transformations::{identity_grid, scale_grid, view_spec, Transformation};
use crate::tuples::Tuple4D;

verus! {

pub struct Camera<S> {
    pub hsize: S,
    pub vsize: S,
    pub half_width: S,
    pub half_height: S,
    pub pxl_sze: S,
    pub cam_transform: Transformation<S>,
}

impl<S: Scalar> Camera<S> {
    /// The camera of a picture `hsize` wide and `vsize` high with a field of
    /// view of `fov` degrees along its longer side.
    pub open spec fn framed(hsize: S, vsize: S, fov: S, cam_transform: Transformation<S>) -> Self {
        let half_view = fov.radians().quotient(S::ratio(2, 1)).tangent();
        let aspect = hsize.quotient(vsize);
        let half_width = if at_most(one::<S>(), aspect) {
            half_view
        } else {
            half_view.product(aspect)
        };
        let half_height = if at_most(one::<S>(), aspect) {
            half_view.quotient(aspect)
        } else {
            half_view
        };
        Camera {
            hsize,
            vsize,
            half_width,
            half_height,
            pxl_sze: half_width.product(S::ratio(2, 1)).quotient(hsize),
            cam_transform,
        }
    }

    /// Whether the camera has a place in the world: whether its transform
    /// has an inverse.
    pub open spec fn placed(&self) -> bool {
        has_place(self.cam_transform@)
    }

    /// The ray from the eye through the middle of pixel `(x, y)`. None
    /// where what the inverse of the camera's transform carries is no
    /// longer a point and a vector.
    pub open spec fn ray_for(&self, x: S, y: S) -> Option<Ray<S>> {
        let x_offset = x.sum(S::ratio(1, 2)).product(self.pxl_sze);
        let y_offset = y.sum(S::ratio(1, 2)).product(self.pxl_sze);
        let world_x = self.half_width.difference(x_offset);
        let world_y = self.half_height.difference(y_offset);
        match inverse_placement(self.cam_transform@) {
            None => None,
            Some(inverse) => {
                let pixel = inverse.apply(Tuple4D::point(world_x, world_y, S::ratio((-1) as i64, 1)));
                let origin = inverse.apply(Tuple4D::point(zero::<S>(), zero::<S>(), zero::<S>()));
                let to_pixel = pixel.difference(origin);
                if to_pixel.is_vec_spec() && origin.is_point_spec() && to_pixel.unit().is_vec_spec() {
                    Some(Ray { origin, dir: to_pixel.unit() })
                } else {
                    None
                }
            },
        }
    }

    /// The view from the origin along minus `z` with `y` up.
    pub open spec fn default_view() -> Option<Grid<S>> {
        view_spec(
            Tuple4D::point(zero::<S>(), zero::<S>(), zero::<S>()),
            Tuple4D::point(zero::<S>(), zero::<S>(), S::ratio((-1) as i64, 1)),
            Tuple4D::vector(zero::<S>(), one::<S>(), zero::<S>()),
        )
    }

    /// The camera at the origin that looks along minus `z` with `y` up.
    /// None where the arithmetic gives that view no transform, or a
    /// transform without an inverse.
    pub fn default(hsize: S, vsize: S, fov: S) -> (r: Option<Self>)
        ensures
            r.is_some() <==> Self::default_view().is_some() && has_place(
                Self::default_view().unwrap(),
            ),
            r.is_some() ==> {
                &&& r.unwrap() == Self::framed(hsize, vsize, fov, r.unwrap().cam_transform)
                &&& Self::default_view() == Some(r.unwrap().cam_transform@)
                &&& r.unwrap().placed()
            },
    {
        let o = S::from_ratio(0, 1);
        match Transformation::view(
            Tuple4D::new_point(o, o, o),
            Tuple4D::new_point(o, o, S::from_ratio(-1, 1)),
            Tuple4D::new_vector(o, S::from_ratio(1, 1), o),
        ) {
            None => None,
            Some(cam_transform) => Camera::try_new(hsize, vsize, fov, cam_transform),
        }
    }

    /// A camera placed by a transform that has an inverse.
    pub fn new(hsize: S, vsize: S, fov: S, cam_transform: Transformation<S>) -> (r: Self)
        requires
            has_place(cam_transform@),
        ensures
            r == Self::framed(hsize, vsize, fov, cam_transform),
            r.placed(),
    {
        let fov = fov.to_radians();
        let half_view = fov.div(S::from_ratio(2, 1)).tan();
        let aspect = hsize.div(vsize);
        let wide = le(S::from_ratio(1, 1), aspect);
        let half_width = if wide {
            half_view
        } else {
            half_view.mul(aspect)
        };
        let half_height = if wide {
            half_view.div(aspect)
        } else {
            half_view
        };
        let pxl_sze = half_width.mul(S::from_ratio(2, 1)).div(hsize);
        Camera { hsize, vsize, half_width, half_height, pxl_sze, cam_transform }
    }

    /// The camera, where the transform has an inverse; none where it has
    /// not.
    pub fn try_new(hsize: S, vsize: S, fov: S, cam_transform: Transformation<S>) -> (r: Option<
        Self,
    >)
        ensures
            r.is_some() <==> has_place(cam_transform@),
            r.is_some() ==> r.unwrap() == Self::framed(hsize, vsize, fov, cam_transform)
                && r.unwrap().placed(),
    {
        if invert(&cam_transform).is_some() {
            Some(Camera::new(hsize, vsize, fov, cam_transform))
        } else {
            None
        }
    }

    pub fn ray4pxl(&self, x: S, y: S) -> (r: Option<Ray<S>>)
        requires
            self.placed(),
        ensures
            r == self.ray_for(x, y),
            r.is_some() ==> r.unwrap().wf(),
    {
        let x_offset = x.add(S::from_ratio(1, 2)).mul(self.pxl_sze);
        let y_offset = y.add(S::from_ratio(1, 2)).mul(self.pxl_sze);
        let world_x = self.half_width.sub(x_offset);
        let world_y = self.half_height.sub(y_offset);
        let inv_transform = inverse_of(&self.cam_transform);
        let o = S::from_ratio(0, 1);
        let pixel = inv_transform.transform(&Tuple4D::new_point(world_x, world_y, S::from_ratio(-1, 1)));
        let origin = inv_transform.transform(&Tuple4D::new_point(o, o, o));
        let to_pixel = pixel.sub(&origin);
        if !to_pixel.is_vec() || !origin.is_point() {
            return None;
        }
        let direction = to_pixel.normalized();
        if !direction.is_vec() {
            return None;
        }
        Some(Ray::new(origin, direction))
    }
}

#[verifier::reject_recursive_types(S)]
pub struct World<S: Scalar> {
    pub objects: Vec<Box<dyn Primitive<S>>>,
    pub lights: Vec<PointLight<S>>,
}

/// The shift along the normal that keeps a new ray off the surface it
/// starts on.
pub open spec fn bias<S: Scalar>() -> S {
    S::ratio(1, 100000)
}

/// Whether a sort compares the intersections without meeting a distance
/// that does not compare: fewer than two are never compared.
pub open spec fn sortable<S: Scalar>(s: Seq<Intersection<S>>) -> bool {
    s.len() < 2 || all_ordered(s)
}

/// Whether something ahead of the ray's origin lies nearer than `distance`.
pub open spec fn blocked<S: Scalar>(s: Seq<Intersection<S>>, distance: S) -> bool {
    match Intersection::visible(s) {
        Some(hit) => hit.dist.below(distance),
        None => false,
    }
}

/// Something blocks the way exactly where some intersection lies ahead of
/// the ray's origin and nearer than `distance`.
pub proof fn lemma_blocked<S: Scalar>(s: Seq<Intersection<S>>, distance: S)
    ensures
        blocked(s, distance) <==> exists|i: int|
            0 <= i < s.len() && (#[trigger] s[i]).ahead() && s[i].dist.below(distance),
{
    Intersection::lemma_nearest(s, s.len());
    match Intersection::nearest(s, s.len()) {
        None => {},
        Some(p) => {
            if exists|i: int| 0 <= i < s.len() && (#[trigger] s[i]).ahead() && s[i].dist.below(distance) {
                let i = choose|i: int|
                    0 <= i < s.len() && (#[trigger] s[i]).ahead() && s[i].dist.below(distance);
                S::law_transitive(s[p].dist, s[i].dist, distance);
            }
            if blocked(s, distance) {
                assert(s[p].ahead() && s[p].dist.below(distance));
            }
        },
    }
}

impl<S: Scalar> World<S> {
    /// Every surface has a place.
    pub open spec fn wf(&self) -> bool {
        forall|i: int| 0 <= i < self.objects@.len() ==> (#[trigger] self.objects@[i]).placed()
    }

    /// Whether surface `i` is the unit sphere with the given id and
    /// material that `placement` places: whether it answers every ray and
    /// every point as that sphere does.
    pub open spec fn is_sphere(
        &self,
        i: int,
        id: usize,
        placement: Grid<S>,
        material: Material<S>,
    ) -> bool {
        &&& self.objects@[i].id_spec() == id
        &&& self.objects@[i].material_spec() == material
        &&& self.objects@[i].placed() == has_place(placement)
        &&& forall|ray: Ray<S>| #[trigger]
            self.objects@[i].intersect_spec(ray) == sphere_meets(placement, id, ray)
        &&& forall|p: Tuple4D<S>| #[trigger]
            self.objects@[i].normal_spec(p) == sphere_normal(placement, p)
    }

    /// The intersections of `ray` with the first `n` surfaces, surface
    /// after surface; none where a surface has no answer.
    pub open spec fn gathered(&self, ray: Ray<S>, n: nat) -> Option<Seq<Intersection<S>>>
        decreases n,
    {
        if n == 0 {
            Some(Seq::empty())
        } else {
            match self.gathered(ray, (n - 1) as nat) {
                None => None,
                Some(before) => match self.objects@[n - 1].intersect_spec(ray) {
                    None => None,
                    Some(found) => Some(before + found),
                },
            }
        }
    }

    /// All intersections of `ray` by ascending distance; none where a
    /// surface has no answer or the distances do not all compare.
    pub open spec fn intersect_spec(&self, ray: Ray<S>) -> Option<Seq<Intersection<S>>> {
        match self.gathered(ray, self.objects@.len()) {
            None => None,
            Some(all) => if sortable(all) {
                Some(by_distance(all, all.len()))
            } else {
                None
            },
        }
    }

    /// Whether a surface stands between `point` and `light`: whether the
    /// ray from `point` toward the light meets something ahead of `point`
    /// and nearer than the light. None where `point` is no point, the way
    /// to the light no vector, or the ray has no intersections.
    pub open spec fn is_shadowed_spec(&self, light: PointLight<S>, point: Tuple4D<S>) -> Option<
        bool,
    > {
        let v = light.pos.difference(point);
        if !v.is_vec_spec() || !point.is_point_spec() || !v.unit().is_vec_spec() {
            None
        } else {
            match self.intersect_spec(Ray { origin: point, dir: v.unit() }) {
                None => None,
                Some(found) => Some(blocked(found, v.length())),
            }
        }
    }

    /// The point of a hit, moved off the surface along the normal.
    pub open spec fn lifted(comps: IntersectionPrecomp<S>) -> Tuple4D<S> {
        comps.point.sum(comps.normal.scaled(bias::<S>()))
    }

    /// The light that the first `n` lights give the hit, summed from black
    /// in the order of the lights; each light counts as shadowed where a
    /// surface stands between it and the lifted point.
    pub open spec fn lit_by(
        &self,
        material: Material<S>,
        comps: IntersectionPrecomp<S>,
        n: nat,
    ) -> Option<Color<S>>
        decreases n,
    {
        if n == 0 {
            Some(Color::black_spec())
        } else {
            match self.lit_by(material, comps, (n - 1) as nat) {
                None => None,
                Some(color) => match self.is_shadowed_spec(self.lights@[n - 1], Self::lifted(comps)) {
                    None => None,
                    Some(in_shadow) => match self.lights@[n - 1].lit(
                        material,
                        Self::lifted(comps),
                        comps.eye,
                        comps.normal,
                        in_shadow,
                    ) {
                        None => None,
                        Some(light) => Some(color.sum(light)),
                    },
                },
            }
        }
    }

    /// The colour of a hit: the light of all lights plus what the surface
    /// mirrors. None where the hit names no surface of the world.
    pub open spec fn shade_hit_spec(&self, comps: IntersectionPrecomp<S>, steps_left: nat) -> Option<
        Color<S>,
    >
        decreases steps_left, 1nat,
    {
        if comps.intersection.object_id >= self.objects@.len() {
            None
        } else {
            let material = self.objects@[comps.intersection.object_id as int].material_spec();
            match self.lit_by(material, comps, self.lights@.len()) {
                None => None,
                Some(color) => match self.reflected_color_spec(comps, steps_left) {
                    None => None,
                    Some(reflected) => Some(color.sum(reflected)),
                },
            }
        }
    }

    /// What the surface mirrors at a hit: black where the material's
    /// reflection is zero or no step is left; otherwise the colour that the
    /// mirrored ray from the lifted point brings back with one step fewer,
    /// times the reflection. None where the hit names no surface of the
    /// world, or the mirrored ray has no point to start from or no vector
    /// to follow.
    pub open spec fn reflected_color_spec(
        &self,
        comps: IntersectionPrecomp<S>,
        steps_left: nat,
    ) -> Option<Color<S>>
        decreases steps_left, 0nat,
    {
        if comps.intersection.object_id >= self.objects@.len() {
            None
        } else {
            let reflection =
                self.objects@[comps.intersection.object_id as int].material_spec().reflection;
            if reflection.same(zero::<S>()) || steps_left == 0 {
                Some(Color::black_spec())
            } else if !Self::lifted(comps).is_point_spec() || !comps.reflection.is_vec_spec() {
                None
            } else {
                match self.color_at_spec(
                    Ray { origin: Self::lifted(comps), dir: comps.reflection },
                    (steps_left - 1) as nat,
                ) {
                    None => None,
                    Some(color) => Some(color.scaled(reflection)),
                }
            }
        }
    }

    /// The colour that `ray` brings back: black where it sees nothing,
    /// otherwise the colour of what it sees.
    pub open spec fn color_at_spec(&self, ray: Ray<S>, steps_left: nat) -> Option<Color<S>>
        decreases steps_left, 2nat,
    {
        match self.intersect_spec(ray) {
            None => None,
            Some(found) => match Intersection::visible(found) {
                None => Some(Color::black_spec()),
                Some(hit) => if hit.object_id >= self.objects@.len() {
                    None
                } else {
                    match IntersectionPrecomp::prepared(
                        hit,
                        ray,
                        self.objects@[hit.object_id as int].normal_spec(ray.position_spec(hit.dist)),
                    ) {
                        None => None,
                        Some(comps) => self.shade_hit_spec(comps, steps_left),
                    }
                },
            },
        }
    }

    proof fn lemma_lit_by_none(&self, material: Material<S>, comps: IntersectionPrecomp<S>, k: nat, n: nat)
        requires
            k <= n,
            self.lit_by(material, comps, k).is_none(),
        ensures
            self.lit_by(material, comps, n).is_none(),
        decreases n,
    {
        if k < n {
            self.lemma_lit_by_none(material, comps, k, (n - 1) as nat);
        }
    }

    /// The light of the default world: white, up and to the left behind
    /// the eye.
    pub open spec fn default_light() -> PointLight<S> {
        PointLight {
            color: Color::rgb(S::ratio(1, 1), S::ratio(1, 1), S::ratio(1, 1)),
            pos: Tuple4D::point(S::ratio((-10) as i64, 1), S::ratio(10, 1), S::ratio((-10) as i64, 1)),
        }
    }

    /// The material of the outer sphere of the default world.
    pub open spec fn outer_material() -> Material<S> {
        Material {
            color: Color::rgb(S::ratio(8, 10), S::ratio(1, 1), S::ratio(6, 10)),
            ambient: S::ratio(1, 10),
            diffuse: S::ratio(7, 10),
            specular: S::ratio(2, 10),
            shininess: S::ratio(200, 1),
            reflection: S::ratio(0, 1),
        }
    }

    /// The material of the inner sphere of the default world.
    pub open spec fn inner_material() -> Material<S> {
        Material {
            color: Color::rgb(S::ratio(1, 1), S::ratio(1, 1), S::ratio(1, 1)),
            ambient: S::ratio(1, 10),
            diffuse: S::ratio(7, 10),
            specular: S::ratio(2, 10),
            shininess: S::ratio(200, 1),
            reflection: S::ratio(0, 1),
        }
    }

    /// The placement of the inner sphere of the default world: half the
    /// size along every axis.
    pub open spec fn inner_placement() -> Grid<S> {
        scale_grid(Tuple4D::vector(S::ratio(5, 10), S::ratio(5, 10), S::ratio(5, 10)))
    }

    /// The intersections of a ray come by ascending distance.
    pub proof fn lemma_intersections_ascend(&self, ray: Ray<S>)
        requires
            self.intersect_spec(ray).is_some(),
        ensures
            is_ascending(self.intersect_spec(ray).unwrap()),
    {
        let all = self.gathered(ray, self.objects@.len()).unwrap();
        if all_ordered(all) {
            lemma_by_distance_ascends(all, all.len());
        } else {
            lemma_by_distance_holds(all, all.len());
            assert(all.take(all.len() as int) =~= all);
            all.to_multiset_ensures();
            by_distance(all, all.len()).to_multiset_ensures();
        }
    }

    /// Whether `x` is one of the intersections of `ray` with surface `k`.
    pub open spec fn met_by(&self, ray: Ray<S>, k: int, x: Intersection<S>) -> bool {
        &&& 0 <= k < self.objects@.len()
        &&& self.objects@[k].intersect_spec(ray).is_some()
        &&& self.objects@[k].intersect_spec(ray).unwrap().contains(x)
    }

    /// Whether some surface of the world meets `ray` ahead of the ray's
    /// origin and nearer than `distance`.
    pub open spec fn stands_between(&self, ray: Ray<S>, distance: S) -> bool {
        exists|k: int, x: Intersection<S>|
            #[trigger] self.met_by(ray, k, x) && x.ahead() && x.dist.below(distance)
    }

    /// What is gathered from the first `n` surfaces is what these surfaces
    /// are met at.
    proof fn lemma_gathered_members(&self, ray: Ray<S>, n: nat, x: Intersection<S>)
        requires
            n <= self.objects@.len(),
            self.gathered(ray, n).is_some(),
        ensures
            self.gathered(ray, n).unwrap().contains(x) <==> exists|k: int|
                0 <= k < n && #[trigger] self.met_by(ray, k, x),
        decreases n,
    {
        if n == 0 {
            assert(!Seq::<Intersection<S>>::empty().contains(x));
        } else {
            let before = self.gathered(ray, (n - 1) as nat).unwrap();
            let found = self.objects@[n - 1].intersect_spec(ray).unwrap();
            self.lemma_gathered_members(ray, (n - 1) as nat, x);
            if (before + found).contains(x) {
                let i = choose|i: int| 0 <= i < (before + found).len() && (before + found)[i] == x;
                if i < before.len() {
                    assert(before[i] == x);
                    assert(before.contains(x));
                } else {
                    assert(found[i - before.len()] == x);
                    assert(found.contains(x));
                    assert(self.met_by(ray, n - 1, x));
                }
            }
            if exists|k: int| 0 <= k < n && #[trigger] self.met_by(ray, k, x) {
                let k = choose|k: int| 0 <= k < n && #[trigger] self.met_by(ray, k, x);
                if k < n - 1 {
                    assert(before.contains(x));
                    let i = choose|i: int| 0 <= i < before.len() && before[i] == x;
                    assert((before + found)[i] == x);
                } else {
                    let i = choose|i: int| 0 <= i < found.len() && found[i] == x;
                    assert((before + found)[before.len() + i] == x);
                }
            }
        }
    }

    /// Something blocks the sorted intersections of `ray` before `distance`
    /// exactly where a surface of the world stands between the ray's origin
    /// and that distance.
    pub proof fn lemma_blocked_by_a_surface(&self, ray: Ray<S>, distance: S)
        requires
            self.intersect_spec(ray).is_some(),
        ensures
            blocked(self.intersect_spec(ray).unwrap(), distance) <==> self.stands_between(
                ray,
                distance,
            ),
    {
        let all = self.gathered(ray, self.objects@.len()).unwrap();
        let found = self.intersect_spec(ray).unwrap();
        lemma_blocked(found, distance);
        lemma_by_distance_holds(all, all.len());
        assert(all.take(all.len() as int) =~= all);
        lemma_same_members(found, all);
        if blocked(found, distance) {
            let i = choose|i: int|
                0 <= i < found.len() && (#[trigger] found[i]).ahead() && found[i].dist.below(distance);
            assert(found.contains(found[i]));
            self.lemma_gathered_members(ray, self.objects@.len(), found[i]);
            let k = choose|k: int| 0 <= k < self.objects@.len() && #[trigger] self.met_by(ray, k, found[i]);
            assert(self.met_by(ray, k, found[i]) && found[i].ahead() && found[i].dist.below(distance));
        }
        if self.stands_between(ray, distance) {
            let (k, x) = choose|k: int, x: Intersection<S>|
                #[trigger] self.met_by(ray, k, x) && x.ahead() && x.dist.below(distance);
            self.lemma_gathered_members(ray, self.objects@.len(), x);
            assert(all.contains(x));
            assert(found.contains(x));
            let i = choose|i: int| 0 <= i < found.len() && found[i] == x;
            assert(found[i].ahead() && found[i].dist.below(distance));
        }
    }

    proof fn lemma_gathered_none(&self, ray: Ray<S>, k: nat, n: nat)
        requires
            k <= n,
            self.gathered(ray, k).is_none(),
        ensures
            self.gathered(ray, n).is_none(),
        decreases n,
    {
        if k < n {
            self.lemma_gathered_none(ray, k, (n - 1) as nat);
        }
    }

    /// A world of surfaces that all have a place.
    pub fn new(objects: Vec<Box<dyn Primitive<S>>>, lights: Vec<PointLight<S>>) -> (r: Self)
        requires
            forall|i: int| 0 <= i < objects@.len() ==> (#[trigger] objects@[i]).placed(),
        ensures
            r.objects == objects,
            r.lights == lights,
            r.wf(),
    {
        World { objects, lights }
    }

    /// A world of one white light and two unit spheres about the origin:
    /// surface 0 as it is, surface 1 at half the size. None where the
    /// arithmetic gives the identity or the halving no inverse.
    pub fn default() -> (r: Option<Self>)
        ensures
            r.is_some() <==> has_place(identity_grid::<S>()) && has_place(Self::inner_placement()),
            r.is_some() ==> {
                &&& r.unwrap().wf()
                &&& r.unwrap().lights@ == seq![Self::default_light()]
                &&& r.unwrap().objects@.len() == 2
                &&& r.unwrap().is_sphere(0, 0, identity_grid::<S>(), Self::outer_material())
                &&& r.unwrap().is_sphere(1, 1, Self::inner_placement(), Self::inner_material())
            },
    {
        let light = PointLight::new(
            Color::new(S::from_ratio(1, 1), S::from_ratio(1, 1), S::from_ratio(1, 1)),
            Tuple4D::new_point(S::from_ratio(-10, 1), S::from_ratio(10, 1), S::from_ratio(-10, 1)),
        );
        let outer = UnitSphere::try_new(
            0,
            Transformation::identity(),
            Material::new(
                Color::new(S::from_ratio(8, 10), S::from_ratio(1, 1), S::from_ratio(6, 10)),
                S::from_ratio(1, 10),
                S::from_ratio(7, 10),
                S::from_ratio(2, 10),
                S::from_ratio(200, 1),
                S::from_ratio(0, 1),
            ),
        );
        let inner = UnitSphere::try_new(
            1,
            Transformation::scale(
                Tuple4D::new_vector(S::from_ratio(5, 10), S::from_ratio(5, 10), S::from_ratio(5, 10)),
            ),
            Material::new(
                Color::new(S::from_ratio(1, 1), S::from_ratio(1, 1), S::from_ratio(1, 1)),
                S::from_ratio(1, 10),
                S::from_ratio(7, 10),
                S::from_ratio(2, 10),
                S::from_ratio(200, 1),
                S::from_ratio(0, 1),
            ),
        );
        match (outer, inner) {
            (Some(outer), Some(inner)) => {
                let lights = vec![light];
                assert(lights@ =~= seq![Self::default_light()]);
                let objects: Vec<Box<dyn Primitive<S>>> = vec![Box::new(outer), Box::new(inner)];
                Some(World { objects, lights })
            },
            _ => None,
        }
    }

    /// The intersections of `ray` with every surface, by ascending
    /// distance.
    pub fn intersect(&self, ray: &Ray<S>) -> (r: Option<Vec<Intersection<S>>>)
        requires
            self.wf(),
            ray.wf(),
        ensures
            match r {
                None => self.intersect_spec(*ray).is_none(),
                Some(v) => {
                    &&& self.intersect_spec(*ray) == Some(v@)
                    &&& is_ascending(v@)
                    &&& v@.to_multiset() == self.gathered(
                        *ray,
                        self.objects@.len(),
                    ).unwrap().to_multiset()
                },
            },
    {
        let mut intersections: Vec<Intersection<S>> = Vec::new();
        let mut k: usize = 0;
        while k < self.objects.len()
            invariant
                self.wf(),
                ray.wf(),
                k <= self.objects@.len(),
                self.gathered(*ray, k as nat) == Some(intersections@),
            decreases self.objects@.len() - k,
        {
            match self.objects[k].intersect(ray) {
                None => {
                    proof {
                        self.lemma_gathered_none(*ray, (k + 1) as nat, self.objects@.len());
                    }
                    return None;
                },
                Some(found) => {
                    let mut found = found;
                    intersections.append(&mut found);
                },
            }
            k += 1;
        }
        if intersections.len() >= 2 {
            let mut i: usize = 0;
            while i < intersections.len()
                invariant
                    i <= intersections@.len(),
                    intersections@.len() >= 2,
                    self.gathered(*ray, self.objects@.len()) == Some(intersections@),
                    forall|t: int| 0 <= t < i ==> ordered(#[trigger] intersections@[t].dist),
                decreases intersections@.len() - i,
            {
                let d = intersections[i].dist;
                if !d.equals(d) {
                    assert(!ordered(intersections@[i as int].dist));
                    return None;
                }
                i += 1;
            }
        }
        assert(sortable(intersections@));
        Some(sort_by_distance(intersections))
    }

    /// Whether a surface of the world stands between `point` and `light`.
    /// The ray starts at `point` itself: a point on a surface is shadowed
    /// by that surface at distance zero unless the caller lifts it off
    /// first.
    pub fn is_shadowed(&self, light: &PointLight<S>, point: &Tuple4D<S>) -> (r: Option<bool>)
        requires
            self.wf(),
        ensures
            r == self.is_shadowed_spec(*light, *point),
            r.is_some() ==> (r.unwrap() <==> self.stands_between(
                Ray { origin: *point, dir: light.toward(*point) },
                light.pos.difference(*point).length(),
            )),
    {
        proof {
            if self.is_shadowed_spec(*light, *point).is_some() {
                self.lemma_blocked_by_a_surface(
                    Ray { origin: *point, dir: light.toward(*point) },
                    light.pos.difference(*point).length(),
                );
            }
        }
        let v = light.pos.sub(point);
        if !v.is_vec() || !point.is_point() {
            return None;
        }
        let distance = v.magnitude();
        let direction = v.normalized();
        if !direction.is_vec() {
            return None;
        }
        let ray = Ray::new(*point, direction);
        let intersections = match self.intersect(&ray) {
            None => {
                return None;
            },
            Some(intersections) => intersections,
        };
        let hit = Intersection::hit(intersections.as_slice());
        if let Some(hit) = hit {
            Some(hit.dist.lt(distance))
        } else {
            Some(false)
        }
    }
    /// The colour that the surface mirrors at a hit. With no step left it is
    /// black, whatever the surfaces are.
    pub fn reflected_color(&self, comps: &IntersectionPrecomp<S>, steps_left: usize) -> (r: Option<
        Color<S>,
    >)
        requires
            self.wf(),
        ensures
            r == self.reflected_color_spec(*comps, steps_left as nat),
            steps_left == 0 && comps.intersection.object_id < self.objects@.len() ==> r == Some(
                Color::<S>::black_spec(),
            ),
        decreases steps_left, 0nat,
    {
        if comps.intersection.object_id >= self.objects.len() {
            return None;
        }
        let reflection = self.objects[comps.intersection.object_id].material().reflection;
        if reflection.equals(S::from_ratio(0, 1)) || steps_left == 0 {
            Some(Color::black())
        } else {
            let point = comps.point.add(&comps.normal.scale(S::from_ratio(1, 100000)));
            if !point.is_point() || !comps.reflection.is_vec() {
                return None;
            }
            let reflect_ray = Ray::new(point, comps.reflection);
            match self.color_at(&reflect_ray, steps_left - 1) {
                None => None,
                Some(color) => Some(color.scale(reflection)),
            }
        }
    }

    /// The colour that `ray` brings back, following mirrored rays for at
    /// most `steps_left` bounces.
    pub fn color_at(&self, ray: &Ray<S>, steps_left: usize) -> (r: Option<Color<S>>)
        requires
            self.wf(),
            ray.wf(),
        ensures
            r == self.color_at_spec(*ray, steps_left as nat),
        decreases steps_left, 2nat,
    {
        let intersections = match self.intersect(ray) {
            None => {
                return None;
            },
            Some(intersections) => intersections,
        };
        let hit = Intersection::hit(intersections.as_slice());
        if let Some(hit) = hit {
            if hit.object_id >= self.objects.len() {
                return None;
            }
            let point = ray.position(hit.dist);
            let normal = self.objects[hit.object_id].surface_normal(&point);
            match IntersectionPrecomp::with_normal(&hit, ray, normal) {
                None => None,
                Some(precomp) => self.shade_hit(&precomp, steps_left),
            }
        } else {
            Some(Color::black())
        }
    }

    pub fn shade_hit(&self, precomp: &IntersectionPrecomp<S>, steps_left: usize) -> (r: Option<
        Color<S>,
    >)
        requires
            self.wf(),
        ensures
            r == self.shade_hit_spec(*precomp, steps_left as nat),
        decreases steps_left, 1nat,
    {
        if precomp.intersection.object_id >= self.objects.len() {
            return None;
        }
        let material = self.objects[precomp.intersection.object_id].material();
        let mut color = Color::black();
        let mut k: usize = 0;
        while k < self.lights.len()
            invariant
                self.wf(),
                k <= self.lights@.len(),
                precomp.intersection.object_id < self.objects@.len(),
                material == self.objects@[precomp.intersection.object_id as int].material_spec(),
                self.lit_by(material, *precomp, k as nat) == Some(color),
            decreases self.lights@.len() - k,
        {
            let point = precomp.point.add(&precomp.normal.scale(S::from_ratio(1, 100000)));
            let in_shadow = match self.is_shadowed(&self.lights[k], &point) {
                None => {
                    proof {
                        self.lemma_lit_by_none(material, *precomp, (k + 1) as nat, self.lights@.len());
                    }
                    return None;
                },
                Some(in_shadow) => in_shadow,
            };
            match self.lights[k].lighting(
                &material,
                &point,
                &precomp.eye,
                &precomp.normal,
                in_shadow,
            ) {
                None => {
                    proof {
                        self.lemma_lit_by_none(material, *precomp, (k + 1) as nat, self.lights@.len());
                    }
                    return None;
                },
                Some(light) => {
                    color = color.add(&light);
                },
            }
            k += 1;
        }
        match self.reflected_color(precomp, steps_left) {
            None => None,
            Some(reflected) => Some(color.add(&reflected)),
        }
    }
}

#[verifier::reject_recursive_types(S)]
pub struct RayTracer<S: Scalar> {
    pub cam: Camera<S>,
    pub world: World<S>,
}

impl<S: Scalar> RayTracer<S> {
    /// The colour of pixel `(x, y)`: what the camera's ray through it
    /// brings back. None where a coordinate is beyond `i64::MAX`, the camera
    /// has no ray, or the ray brings no colour.
    pub open spec fn pixel(&self, x: int, y: int, steps: nat) -> Option<Color<S>> {
        if x > i64::MAX || y > i64::MAX {
            None
        } else {
            match self.cam.ray_for(S::ratio(x as i64, 1), S::ratio(y as i64, 1)) {
                None => None,
                Some(ray) => self.world.color_at_spec(ray, steps),
            }
        }
    }

    /// The colours of the picture: that of pixel `(x, y)` at place
    /// `x * v + y`, for a picture `h` wide and `v` high, the whole parts of
    /// the camera's sizes. None where `h * v` is beyond `usize::MAX` or a
    /// pixel has no colour.
    pub open spec fn traced(&self, steps: nat) -> Option<Seq<Color<S>>> {
        let h = self.cam.hsize.whole() as int;
        let v = self.cam.vsize.whole() as int;
        if h * v > usize::MAX {
            None
        } else if forall|p: int| 0 <= p < h * v ==> (#[trigger] self.pixel(p / v, p % v, steps)).is_some() {
            Some(Seq::new((h * v) as nat, |p: int| self.pixel(p / v, p % v, steps).unwrap()))
        } else {
            None
        }
    }

    pub fn new(cam: Camera<S>, world: World<S>) -> (r: Self)
        ensures
            r.cam == cam,
            r.world == world,
    {
        RayTracer { cam, world }
    }

    /// The picture that the camera takes of the world, following mirrored
    /// rays for at most `reflection_steps` bounces.
    pub fn trace(&self, reflection_steps: usize) -> (r: Option<Image<S>>)
        requires
            self.cam.placed(),
            self.world.wf(),
        ensures
            match r {
                None => self.traced(reflection_steps as nat).is_none(),
                Some(img) => {
                    &&& img.w == self.cam.hsize.whole()
                    &&& img.h == self.cam.vsize.whole()
                    &&& self.traced(reflection_steps as nat) == Some(img.img@)
                },
            },
    {
        let h = self.cam.hsize.to_usize();
        let v = self.cam.vsize.to_usize();
        if h.checked_mul(v).is_none() {
            return None;
        }
        let ghost steps = reflection_steps as nat;
        let mut img = Image::new_rgba(h, v);
        let mut y: usize = 0;
        while y < v
            invariant
                self.cam.placed(),
                self.world.wf(),
                h == self.cam.hsize.whole(),
                v == self.cam.vsize.whole(),
                steps == reflection_steps as nat,
                h * v <= usize::MAX,
                y <= v,
                img.w == h,
                img.h == v,
                img.img@.len() == h * v,
                forall|xx: int, yy: int|
                    0 <= xx < h && 0 <= yy < y ==> #[trigger] self.pixel(xx, yy, steps) == Some(
                        img.img@[xx * v + yy],
                    ),
            decreases v - y,
        {
            let mut x: usize = 0;
            while x < h
                invariant
                    self.cam.placed(),
                    self.world.wf(),
                    h == self.cam.hsize.whole(),
                    v == self.cam.vsize.whole(),
                    steps == reflection_steps as nat,
                    h * v <= usize::MAX,
                    y < v,
                    x <= h,
                    img.w == h,
                    img.h == v,
                    img.img@.len() == h * v,
                    forall|xx: int, yy: int|
                        0 <= xx < h && 0 <= yy < y ==> #[trigger] self.pixel(xx, yy, steps) == Some(
                            img.img@[xx * v + yy],
                        ),
                    forall|xx: int|
                        0 <= xx < x ==> #[trigger] self.pixel(xx, y as int, steps) == Some(
                            img.img@[xx * v + y],
                        ),
                decreases h - x,
            {
                proof {
                    lemma_cell_index(x as int, y as int, h as int, v as int);
                }
                let color = if (x as u64) > 0x7fff_ffff_ffff_ffffu64 || (y as u64)
                    > 0x7fff_ffff_ffff_ffffu64 {
                    None
                } else {
                    match self.cam.ray4pxl(S::from_ratio(x as i64, 1), S::from_ratio(y as i64, 1)) {
                        None => None,
                        Some(ray) => self.world.color_at(&ray, reflection_steps),
                    }
                };
                assert(color == self.pixel(x as int, y as int, steps));
                let color = match color {
                    None => {
                        assert(self.pixel((x * v + y) / (v as int), (x * v + y) % (v as int), steps).is_none());
                        return None;
                    },
                    Some(color) => color,
                };
                let ghost before = img.img@;
                img.set_rgb(x, y, &color);
                proof {
                    assert forall|xx: int, yy: int| 0 <= xx < h && 0 <= yy < y implies #[trigger] self.pixel(
                        xx,
                        yy,
                        steps,
                    ) == Some(img.img@[xx * v + yy]) by {
                        lemma_cell_index(xx, yy, h as int, v as int);
                        assert(self.pixel(xx, yy, steps) == Some(before[xx * v + yy]));
                    }
                    assert forall|xx: int| 0 <= xx < x + 1 implies #[trigger] self.pixel(
                        xx,
                        y as int,
                        steps,
                    ) == Some(img.img@[xx * v + y]) by {
                        lemma_cell_index(xx, y as int, h as int, v as int);
                        if xx < x {
                            assert(self.pixel(xx, y as int, steps) == Some(before[xx * v + y]));
                        }
                    }
                }
                x += 1;
            }
            y += 1;
        }
        proof {
            assert forall|p: int| 0 <= p < h * v implies (#[trigger] self.pixel(
                p / (v as int),
                p % (v as int),
                steps,
            )) == Some(img.img@[p]) by {
                lemma_split_index(p, h as int, v as int);
            }
            assert(img.img@ =~= self.traced(steps).unwrap());
        }
        Some(img)
    }
}

} // verus!
