//! Colours and the pixel buffer.
use vstd::prelude::*;
use crate::scalar::{one, zero, Scalar};

verus! {

#[derive(Debug)]
pub struct Color<S> {
    pub r: S,
    pub g: S,
    pub b: S,
    pub a: S,
}

impl<S: Copy> Clone for Color<S> {
    fn clone(&self) -> (r: Self)
        ensures
            r == *self,
    {
        *self
    }
}

impl<S: Copy> Copy for Color<S> {
}

/// A channel as a byte: 255 above 255, 0 below 0, otherwise cut to a whole
/// number.
pub open spec fn channel_byte<S: Scalar>(x: S) -> u8 {
    if S::ratio(255, 1).below(x) {
        255
    } else if x.below(zero::<S>()) {
        0
    } else if x.whole() > 255 {
        255
    } else {
        x.whole() as u8
    }
}

impl<S: Scalar> Color<S> {
    /// The opaque colour with the given channels.
    pub open spec fn rgb(r: S, g: S, b: S) -> Self {
        Color { r, g, b, a: one::<S>() }
    }

    pub open spec fn black_spec() -> Self {
        Self::rgb(zero::<S>(), zero::<S>(), zero::<S>())
    }

    /// Channel by channel; the result is opaque.
    pub open spec fn blend(self, other: Self) -> Self {
        Self::rgb(self.r.product(other.r), self.g.product(other.g), self.b.product(other.b))
    }

    /// Every colour channel times `by`; the result is opaque.
    pub open spec fn scaled(self, by: S) -> Self {
        Self::rgb(self.r.product(by), self.g.product(by), self.b.product(by))
    }

    /// Channel by channel; the result is opaque.
    pub open spec fn sum(self, other: Self) -> Self {
        Self::rgb(self.r.sum(other.r), self.g.sum(other.g), self.b.sum(other.b))
    }

    pub open spec fn is_green_spec(self) -> bool {
        self.r.below(self.g) && self.b.below(self.g)
    }

    /// The four channels, each times 255, as bytes.
    pub open spec fn bytes(self) -> Seq<u8> {
        let full = S::ratio(255, 1);
        seq![
            channel_byte(self.r.product(full)),
            channel_byte(self.g.product(full)),
            channel_byte(self.b.product(full)),
            channel_byte(self.a.product(full)),
        ]
    }

    pub fn new(r: S, g: S, b: S) -> (c: Self)
        ensures
            c == Self::rgb(r, g, b),
    {
        Color { r, g, b, a: S::from_ratio(1, 1) }
    }

    pub fn black() -> (c: Self)
        ensures
            c == Self::black_spec(),
    {
        Color {
            r: S::from_ratio(0, 1),
            g: S::from_ratio(0, 1),
            b: S::from_ratio(0, 1),
            a: S::from_ratio(1, 1),
        }
    }

    pub fn mul(&self, other: &Color<S>) -> (c: Self)
        ensures
            c == self.blend(*other),
    {
        Color::new(self.r.mul(other.r), self.g.mul(other.g), self.b.mul(other.b))
    }

    pub fn scale(&self, scaler: S) -> (c: Self)
        ensures
            c == self.scaled(scaler),
    {
        Color::new(self.r.mul(scaler), self.g.mul(scaler), self.b.mul(scaler))
    }

    pub fn add(&self, other: &Color<S>) -> (c: Self)
        ensures
            c == self.sum(*other),
    {
        Color::new(self.r.add(other.r), self.g.add(other.g), self.b.add(other.b))
    }

    pub fn is_green(&self) -> (r: bool)
        ensures
            r == self.is_green_spec(),
    {
        self.r.lt(self.g) && self.b.lt(self.g)
    }
}

pub struct Image<S> {
    pub img: Vec<Color<S>>,
    pub w: usize,
    pub h: usize,
}

impl<S: Scalar> Image<S> {
    /// There is one colour for each of the `w * h` pixels.
    pub open spec fn wf(&self) -> bool {
        self.img@.len() == self.w * self.h
    }

    /// The bytes of every pixel in turn, four for each.
    pub open spec fn flat_spec(&self) -> Seq<u8> {
        Seq::new(4 * self.img@.len(), |k: int| self.img@[k / 4].bytes()[k % 4])
    }

    pub fn new_rgba(w: usize, h: usize) -> (r: Self)
        requires
            w * h <= usize::MAX,
        ensures
            r.wf(),
            r.w == w,
            r.h == h,
            forall|k: int| 0 <= k < w * h ==> r.img@[k] == Color::<S>::black_spec(),
    {
        let total = w * h;
        let mut img: Vec<Color<S>> = Vec::new();
        let mut k: usize = 0;
        while k < total
            invariant
                k <= total,
                img@.len() == k,
                forall|t: int| 0 <= t < k ==> img@[t] == Color::<S>::black_spec(),
            decreases total - k,
        {
            img.push(Color::black());
            k += 1;
        }
        Image { img, w, h }
    }

    /// Stores `c` at place `i * h + j`.
    pub fn set_rgb(&mut self, i: usize, j: usize, c: &Color<S>)
        requires
            i * old(self).h + j < old(self).img@.len(),
        ensures
            final(self).w == old(self).w,
            final(self).h == old(self).h,
            final(self).img@ == old(self).img@.update(i * old(self).h + j, *c),
    {
        let len = self.img.len();
        assert(i * self.h <= i * self.h + j < len);
        let place = i * self.h + j;
        self.img[place] = *c;
    }

    /// The colour at place `i * w + j`.
    pub fn at(&self, i: usize, j: usize) -> (c: Color<S>)
        requires
            i * self.w + j < self.img@.len(),
        ensures
            c == self.img@[i * self.w + j],
    {
        let len = self.img.len();
        assert(i * self.w <= i * self.w + j < len);
        self.img[i * self.w + j]
    }

    pub fn clip2byte(x: S) -> (r: u8)
        ensures
            r == channel_byte(x),
    {
        if S::from_ratio(255, 1).lt(x) {
            255
        } else {
            if x.lt(S::from_ratio(0, 1)) {
                0
            } else {
                let n = x.to_usize();
                if n > 255 {
                    255
                } else {
                    n as u8
                }
            }
        }
    }

    /// The image as bytes, row after row, four bytes for each pixel.
    pub fn flat(&self) -> (bytes: Vec<u8>)
        requires
            self.wf(),
        ensures
            bytes@ == self.flat_spec(),
    {
        let total = self.img.len();
        let mut bytes: Vec<u8> = Vec::new();
        let mut p: usize = 0;
        while p < total
            invariant
                total == self.img@.len(),
                p <= total,
                bytes@.len() == 4 * p,
                forall|k: int| 0 <= k < 4 * p ==> bytes@[k] == self.img@[k / 4].bytes()[k % 4],
            decreases total - p,
        {
            let c = self.img[p];
            let full = S::from_ratio(255, 1);
            let ur = Image::<S>::clip2byte(c.r.mul(full));
            let ug = Image::<S>::clip2byte(c.g.mul(full));
            let ub = Image::<S>::clip2byte(c.b.mul(full));
            let ua = Image::<S>::clip2byte(c.a.mul(full));
            bytes.push(ur);
            bytes.push(ug);
            bytes.push(ub);
            bytes.push(ua);
            p += 1;
        }
        assert(bytes@ =~= self.flat_spec());
        bytes
    }
}

} // verus!
