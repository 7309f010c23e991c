//! What a surface is made of.
use vstd::prelude::*;
use crate::image::Color;
use crate::scalar::Scalar;

verus! {

pub struct Material<S> {
    pub color: Color<S>,
    pub ambient: S,
    pub diffuse: S,
    pub specular: S,
    pub shininess: S,
    pub reflection: S,
}

impl<S: Copy> Clone for Material<S> {
    fn clone(&self) -> (r: Self)
        ensures
            r == *self,
    {
        *self
    }
}

impl<S: Copy> Copy for Material<S> {
}

impl<S: Scalar> Material<S> {
    /// The matte material of a colour: ambient 1/10, diffuse and specular
    /// 9/10, shininess 200, no reflection.
    pub open spec fn matte(color: Color<S>) -> Self {
        Material {
            color,
            ambient: S::ratio(1, 10),
            diffuse: S::ratio(9, 10),
            specular: S::ratio(9, 10),
            shininess: S::ratio(200, 1),
            reflection: S::ratio(0, 1),
        }
    }

    pub fn new(
        color: Color<S>,
        ambient: S,
        diffuse: S,
        specular: S,
        shininess: S,
        reflection: S,
    ) -> (r: Self)
        ensures
            r == (Material { color, ambient, diffuse, specular, shininess, reflection }),
    {
        Material { color, ambient, diffuse, specular, shininess, reflection }
    }

    pub fn from_color(color: Color<S>) -> (r: Self)
        ensures
            r == Self::matte(color),
    {
        Material {
            color,
            ambient: S::from_ratio(1, 10),
            diffuse: S::from_ratio(9, 10),
            specular: S::from_ratio(9, 10),
            shininess: S::from_ratio(200, 1),
            reflection: S::from_ratio(0, 1),
        }
    }
}

} // verus!
