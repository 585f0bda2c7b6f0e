//! Surface colour: a solid colour, a checker of two textures, or banded
//! noise.
//!
//! A checker chooses between its two textures by the sign of a product of
//! sines at the shaded point; a noise texture's colour is a sinusoid of the
//! field's turbulence there. Both numbers are rounding arithmetic: the caller
//! computes them and the texture decides with them.

use vstd::prelude::*;
use crate::scalar::Scalar;
use crate::types::Color;
use crate::perlin::Perlin;

verus! {

/// What has a colour at every point of a surface.
pub trait GetColor {
    /// The colour at a point at which the product of sines is `sines` and
    /// the noise texture that applies there, if one does, has the colour
    /// `noise`.
    spec fn color(&self, sines: Scalar, noise: Color) -> Color;

    fn value(&self, sines: Scalar, noise: Color) -> (c: Color)
        ensures
            c == self.color(sines, noise),
    ;
}

#[derive(Debug)]
pub enum Texture {
    SolidColor(SolidColor),
    CheckerTexture(CheckerTexture),
    NoiseTexture(NoiseTexture),
}

/// One colour everywhere.
#[derive(Clone, Copy, Debug)]
pub struct SolidColor(pub Color);

/// Two textures in alternating cells: the first where the product of sines is
/// negative, the second elsewhere.
#[derive(Debug)]
pub struct CheckerTexture(pub Box<Texture>, pub Box<Texture>);

/// Bands of noise: a scale along the third axis and the field that is sampled.
#[derive(Debug)]
pub struct NoiseTexture(pub Scalar, pub Perlin);

impl GetColor for SolidColor {
    open spec fn color(&self, sines: Scalar, noise: Color) -> Color {
        self.0
    }

    fn value(&self, sines: Scalar, noise: Color) -> (c: Color) {
        self.0
    }
}

impl CheckerTexture {
    pub fn from_colors(color1: Color, color2: Color) -> (t: CheckerTexture)
        ensures
            *t.0 == Texture::SolidColor(SolidColor(color1)),
            *t.1 == Texture::SolidColor(SolidColor(color2)),
    {
        CheckerTexture(
            Box::new(Texture::SolidColor(SolidColor(color1))),
            Box::new(Texture::SolidColor(SolidColor(color2))),
        )
    }

    /// The texture of the cell in which the product of sines is `sines`.
    pub open spec fn pick_spec(self, sines: Scalar) -> Texture {
        if sines.lt_spec(Scalar::zero_spec()) {
            *self.0
        } else {
            *self.1
        }
    }

    pub fn pick(&self, sines: Scalar) -> (t: &Texture)
        ensures
            *t == self.pick_spec(sines),
    {
        if sines.lt(&Scalar::zero()) {
            &*self.0
        } else {
            &*self.1
        }
    }

}

impl GetColor for CheckerTexture {
    open spec fn color(&self, sines: Scalar, noise: Color) -> Color {
        self.pick_spec(sines).value_spec(sines, noise)
    }

    fn value(&self, sines: Scalar, noise: Color) -> (c: Color) {
        self.pick(sines).value(sines, noise)
    }
}

impl NoiseTexture {
    pub fn new(scale: Scalar, field: Perlin) -> (t: NoiseTexture)
        ensures
            t.0 == scale,
            t.1 == field,
    {
        NoiseTexture(scale, field)
    }

    pub fn scale(&self) -> (s: Scalar)
        ensures
            s == self.0,
    {
        self.0
    }

    pub fn field(&self) -> (p: &Perlin)
        ensures
            *p == self.1,
    {
        &self.1
    }
}

impl GetColor for NoiseTexture {
    open spec fn color(&self, sines: Scalar, noise: Color) -> Color {
        noise
    }

    fn value(&self, sines: Scalar, noise: Color) -> (c: Color) {
        noise
    }
}

impl Texture {
    /// The solid or noise texture that colours a point at which the product
    /// of sines is `sines`: checkers are resolved, however deeply nested.
    pub open spec fn leaf_spec(self, sines: Scalar) -> Texture
        decreases self,
    {
        match self {
            Texture::CheckerTexture(checker) => {
                if sines.lt_spec(Scalar::zero_spec()) {
                    checker.0.leaf_spec(sines)
                } else {
                    checker.1.leaf_spec(sines)
                }
            },
            _ => self,
        }
    }

    /// The colour at a point at which the product of sines is `sines` and the
    /// noise texture that applies there, if one does, has the colour `noise`.
    pub open spec fn value_spec(self, sines: Scalar, noise: Color) -> Color {
        match self.leaf_spec(sines) {
            Texture::SolidColor(solid) => solid.0,
            _ => noise,
        }
    }

    pub fn leaf(&self, sines: Scalar) -> (t: &Texture)
        ensures
            *t == self.leaf_spec(sines),
            !(t is CheckerTexture),
        decreases self,
    {
        match self {
            Texture::CheckerTexture(checker) => {
                if sines.lt(&Scalar::zero()) {
                    checker.0.leaf(sines)
                } else {
                    checker.1.leaf(sines)
                }
            },
            _ => self,
        }
    }
}

impl GetColor for Texture {
    open spec fn color(&self, sines: Scalar, noise: Color) -> Color {
        self.value_spec(sines, noise)
    }

    fn value(&self, sines: Scalar, noise: Color) -> (c: Color) {
        match self.leaf(sines) {
            Texture::SolidColor(solid) => solid.0,
            _ => noise,
        }
    }
}

impl Texture {
    /// A texture that shows the same colours as this one: the same tree of
    /// checkers over the same solid colours and the same noise fields.
    pub open spec fn alike(self, other: Texture) -> bool
        decreases self,
    {
        match (self, other) {
            (Texture::SolidColor(a), Texture::SolidColor(b)) => a.0 == b.0,
            (Texture::CheckerTexture(a), Texture::CheckerTexture(b)) => a.0.alike(*b.0)
                && a.1.alike(*b.1),
            (Texture::NoiseTexture(a), Texture::NoiseTexture(b)) => {
                &&& a.0 == b.0
                &&& a.1.gradients() == b.1.gradients()
                &&& a.1.table_x() == b.1.table_x()
                &&& a.1.table_y() == b.1.table_y()
                &&& a.1.table_z() == b.1.table_z()
            },
            _ => false,
        }
    }

    /// A copy of the texture.
    pub fn duplicate(&self) -> (t: Texture)
        ensures
            self.alike(t),
        decreases self,
    {
        match self {
            Texture::SolidColor(solid) => Texture::SolidColor(SolidColor(solid.0)),
            Texture::CheckerTexture(checker) => Texture::CheckerTexture(
                CheckerTexture(
                    Box::new(checker.0.duplicate()),
                    Box::new(checker.1.duplicate()),
                ),
            ),
            Texture::NoiseTexture(noise) => Texture::NoiseTexture(
                NoiseTexture(noise.0, noise.1.clone()),
            ),
        }
    }
}

impl Clone for Texture {
    fn clone(&self) -> (t: Self)
        ensures
            self.alike(t),
    {
        self.duplicate()
    }
}

impl Clone for CheckerTexture {
    fn clone(&self) -> (t: Self)
        ensures
            self.0.alike(*t.0),
            self.1.alike(*t.1),
    {
        CheckerTexture(Box::new(self.0.duplicate()), Box::new(self.1.duplicate()))
    }
}

impl Clone for NoiseTexture {
    fn clone(&self) -> (t: Self)
        ensures
            Texture::NoiseTexture(*self).alike(Texture::NoiseTexture(t)),
    {
        NoiseTexture(self.0, self.1.clone())
    }
}

impl From<SolidColor> for Texture {
    fn from(texture: SolidColor) -> (t: Texture) {
        Texture::SolidColor(texture)
    }
}

impl vstd::std_specs::convert::FromSpecImpl<SolidColor> for Texture {
    open spec fn obeys_from_spec() -> bool {
        true
    }

    open spec fn from_spec(texture: SolidColor) -> Texture {
        Texture::SolidColor(texture)
    }
}

impl From<CheckerTexture> for Texture {
    fn from(texture: CheckerTexture) -> (t: Texture) {
        Texture::CheckerTexture(texture)
    }
}

impl vstd::std_specs::convert::FromSpecImpl<CheckerTexture> for Texture {
    open spec fn obeys_from_spec() -> bool {
        true
    }

    open spec fn from_spec(texture: CheckerTexture) -> Texture {
        Texture::CheckerTexture(texture)
    }
}

impl From<NoiseTexture> for Texture {
    fn from(texture: NoiseTexture) -> (t: Texture) {
        Texture::NoiseTexture(texture)
    }
}

impl vstd::std_specs::convert::FromSpecImpl<NoiseTexture> for Texture {
    open spec fn obeys_from_spec() -> bool {
        true
    }

    open spec fn from_spec(texture: NoiseTexture) -> Texture {
        Texture::NoiseTexture(texture)
    }
}

/// A checker shows, in each cell, what the texture chosen for that cell shows.
pub proof fn lemma_checker_value(checker: CheckerTexture, sines: Scalar, noise: Color)
    ensures
        Texture::CheckerTexture(checker).value_spec(sines, noise) == checker.pick_spec(
            sines,
        ).value_spec(sines, noise),
{
}

/// On the two sides of a cell boundary a checker of two solid colours shows
/// its two colours: the first where the product of sines is negative, the
/// second where it is not.
pub proof fn lemma_checker_alternates(
    color1: Color,
    color2: Color,
    sines_a: Scalar,
    sines_b: Scalar,
    noise: Color,
)
    requires
        sines_a.lt_spec(Scalar::zero_spec()),
        !sines_b.lt_spec(Scalar::zero_spec()),
    ensures
        ({
            let checker = Texture::CheckerTexture(
                CheckerTexture(
                    Box::new(Texture::SolidColor(SolidColor(color1))),
                    Box::new(Texture::SolidColor(SolidColor(color2))),
                ),
            );
            &&& checker.value_spec(sines_a, noise) == color1
            &&& checker.value_spec(sines_b, noise) == color2
        }),
{
    reveal_with_fuel(Texture::leaf_spec, 3);
}

} // verus!
