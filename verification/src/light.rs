//! Point lights and the light that a surface sends to the eye.
use vstd::prelude::*;
use crate::geometry::{reflect, reflected};
use crate::image::Color;
use crate::material::Material;
use crate::scalar::{at_most, le, zero, Scalar};
use crate::tuples::Tuple4D;

verus! {

pub struct PointLight<S> {
    pub color: Color<S>,
    pub pos: Tuple4D<S>,
}

impl<S: Scalar> PointLight<S> {
    /// The unit vector from `point` to the light.
    pub open spec fn toward(self, point: Tuple4D<S>) -> Tuple4D<S> {
        self.pos.difference(point).unit()
    }

    /// The colour that the light gives a surface at `point`, seen along
    /// `eye`, by the Phong model.
    ///
    /// The material's colour blended with the light's is the effective
    /// colour. The ambient part is the effective colour times the
    /// material's ambient share, and it is all there is in shadow or where
    /// the light stands behind the surface. Otherwise the diffuse part is
    /// the effective colour times the diffuse share times the cosine between
    /// light and normal. The specular part is added where the mirrored light
    /// meets the eye at a positive cosine: the light's colour times the
    /// specular share times that cosine to the power of the shininess.
    ///
    /// None where a tuple that has to be a vector is none: the way to the
    /// light before and after it is brought to unit length, the normal, and,
    /// where the surface is lit, the way from the light, the mirrored way
    /// and the eye.
    pub open spec fn lit(
        self,
        material: Material<S>,
        point: Tuple4D<S>,
        eye: Tuple4D<S>,
        normal: Tuple4D<S>,
        in_shadow: bool,
    ) -> Option<Color<S>> {
        let effective_color = material.color.blend(self.color);
        let light_dir = self.toward(point);
        let ambient = effective_color.scaled(material.ambient);
        if !self.pos.difference(point).is_vec_spec() || !light_dir.is_vec_spec()
            || !normal.is_vec_spec() {
            None
        } else {
            let light2normal = light_dir.dot_product(normal);
            if light2normal.below(zero::<S>()) || in_shadow {
                Some(ambient)
            } else {
                let diffuse = effective_color.scaled(material.diffuse).scaled(light2normal);
                let from_light = light_dir.scaled(S::ratio((-1) as i64, 1));
                let reflection_vec = reflected(from_light, normal);
                if !from_light.is_vec_spec() || !reflection_vec.is_vec_spec()
                    || !eye.is_vec_spec() {
                    None
                } else {
                    let reflection = reflection_vec.dot_product(eye);
                    if at_most(reflection, zero::<S>()) {
                        Some(ambient.sum(diffuse))
                    } else {
                        let factor = reflection.power(material.shininess);
                        let specular = self.color.scaled(material.specular).scaled(factor);
                        Some(ambient.sum(diffuse).sum(specular))
                    }
                }
            }
        }
    }

    pub fn new(color: Color<S>, pos: Tuple4D<S>) -> (r: Self)
        ensures
            r == (PointLight { color, pos }),
    {
        PointLight { color, pos }
    }

    pub fn lighting(
        &self,
        material: &Material<S>,
        point: &Tuple4D<S>,
        eye: &Tuple4D<S>,
        normal: &Tuple4D<S>,
        in_shadow: bool,
    ) -> (r: Option<Color<S>>)
        ensures
            r == self.lit(*material, *point, *eye, *normal, in_shadow),
    {
        let effective_color = material.color.mul(&self.color);
        let to_light = self.pos.sub(point);
        if !to_light.is_vec() {
            return None;
        }
        let light_dir = to_light.normalized();
        let ambient = effective_color.scale(material.ambient);
        if !light_dir.is_vec() || !normal.is_vec() {
            return None;
        }
        let light2normal = light_dir.dot(normal);
        if light2normal.lt(S::from_ratio(0, 1)) || in_shadow {
            Some(ambient)
        } else {
            let diffuse = effective_color.scale(material.diffuse).scale(light2normal);
            let from_light = light_dir.scale(S::from_ratio(-1, 1));
            if !from_light.is_vec() {
                return None;
            }
            let reflection_vec = reflect(&from_light, normal);
            if !reflection_vec.is_vec() || !eye.is_vec() {
                return None;
            }
            let reflection = reflection_vec.dot(eye);
            if le(reflection, S::from_ratio(0, 1)) {
                Some(ambient.add(&diffuse))
            } else {
                let factor = reflection.powf(material.shininess);
                let specular = self.color.scale(material.specular).scale(factor);
                Some(ambient.add(&diffuse).add(&specular))
            }
        }
    }
}

} // verus!
