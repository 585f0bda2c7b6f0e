//! Materials: what becomes of a ray at a surface.
//!
//! A scattering decision needs numbers that only rounding arithmetic gives
//! (a perturbed direction, a dot product, a reflectance). The caller prepares
//! them as a [`Sample`]; the material decides whether the ray goes on, in
//! which direction, and how much of each colour it keeps.

use vstd::prelude::*;
use crate::scalar::Scalar;
use crate::types::{Color, Ray, Vec3};
use crate::texture::{CheckerTexture, GetColor, SolidColor, Texture};
use crate::intersections::HitRecord;

verus! {

#[derive(Debug)]
pub enum Material {
    Lambertian(Lambertian),
    Metal(Metal),
    Dielectric(Dielectric),
}

/// A diffuse surface coloured by a texture.
#[derive(Debug)]
pub struct Lambertian(pub Texture);

/// A mirror of a given colour; `fuzz`, from zero to one, blurs the
/// reflection.
#[derive(Clone, Copy, Debug)]
pub struct Metal {
    albedo: Color,
    fuzz: Scalar,
}

/// A clear material with the given refractive index.
#[derive(Clone, Copy, Debug)]
pub struct Dielectric(pub Scalar);

/// The numbers a scattering decision rests on, for one hit.
#[derive(Clone, Copy, Debug)]
pub enum Sample {
    /// For a diffuse surface: the surface normal plus a random unit vector,
    /// the product of sines at the hit point, and the noise colour there.
    Diffuse { direction: Vec3, sines: Scalar, noise: Color },
    /// For a metal: the mirrored direction plus the fuzz times a random point
    /// of the unit ball, and the dot product of that direction with the
    /// surface normal.
    Glossy { direction: Vec3, along_normal: Scalar },
    /// For a dielectric: the mirrored and the refracted direction, the
    /// refraction ratio times the sine of the angle of incidence, the Schlick
    /// reflectance, and a uniform draw from the unit interval.
    Refractive {
        reflected: Vec3,
        refracted: Vec3,
        ratio_sin_theta: Scalar,
        reflectance: Scalar,
        draw: Scalar,
    },
}

/// The colour that leaves every channel as it is.
pub open spec fn white() -> Color {
    Vec3 { x: Scalar::one_spec(), y: Scalar::one_spec(), z: Scalar::one_spec() }
}

/// The ray that leaves the hit point in `direction`, at the moment of the
/// incoming ray.
pub open spec fn onward(ray_in: Ray, hit: HitRecord, direction: Vec3) -> Ray {
    Ray { origin: hit.point, direction, time: ray_in.time }
}

/// What decides the fate of a ray at a surface.
pub trait Scatter {
    /// The sample holds the numbers that this material decides with.
    spec fn takes(&self, sample: Sample) -> bool;

    /// What becomes of a ray that hit the material: `None` when it is
    /// absorbed, else the ray that goes on and the share of each colour it
    /// keeps.
    spec fn scattered(&self, ray_in: Ray, hit: HitRecord, sample: Sample) -> Option<(Ray, Color)>;

    fn scatter(&self, ray_in: &Ray, hit: &HitRecord, sample: &Sample) -> (r: Option<(Ray, Color)>)
        requires
            self.takes(*sample),
        ensures
            r == self.scattered(*ray_in, *hit, *sample),
    ;
}

impl Lambertian {
    pub fn from_color(color: Color) -> (m: Lambertian)
        ensures
            m.0 == Texture::SolidColor(SolidColor(color)),
    {
        Lambertian(Texture::SolidColor(SolidColor(color)))
    }

    pub fn from_colors(color1: Color, color2: Color) -> (m: Lambertian)
        ensures
            m.0 is CheckerTexture,
            *m.0->CheckerTexture_0.0 == Texture::SolidColor(SolidColor(color1)),
            *m.0->CheckerTexture_0.1 == Texture::SolidColor(SolidColor(color2)),
    {
        Lambertian(Texture::CheckerTexture(CheckerTexture::from_colors(color1, color2)))
    }
}

impl Scatter for Lambertian {
    open spec fn takes(&self, sample: Sample) -> bool {
        sample is Diffuse
    }

    /// A diffuse surface never absorbs: the ray goes on in the sampled
    /// direction, tinted by the texture.
    open spec fn scattered(&self, ray_in: Ray, hit: HitRecord, sample: Sample) -> Option<
        (Ray, Color),
    > {
        match sample {
            Sample::Diffuse { direction, sines, noise } => Some(
                (onward(ray_in, hit, direction), self.0.value_spec(sines, noise)),
            ),
            _ => None,
        }
    }

    fn scatter(&self, ray_in: &Ray, hit: &HitRecord, sample: &Sample) -> (r: Option<(Ray, Color)>) {
        match sample {
            Sample::Diffuse { direction, sines, noise } => Some(
                (Ray::new(hit.point, *direction, ray_in.time), self.0.value(*sines, *noise)),
            ),
            _ => None,
        }
    }
}

impl Metal {
    #[verifier::type_invariant]
    closed spec fn inv(self) -> bool {
        Scalar::zero_spec().le_spec(self.fuzz) && self.fuzz.le_spec(Scalar::one_spec())
    }

    pub closed spec fn spec_albedo(self) -> Color {
        self.albedo
    }

    pub closed spec fn spec_fuzz(self) -> Scalar {
        self.fuzz
    }

    /// The fuzz that a metal takes for the one asked for: a fuzz that is not
    /// below one, NaN included, counts as one, and one below zero as zero.
    pub open spec fn limited(fuzz: Scalar) -> Scalar {
        if fuzz.lt_spec(Scalar::one_spec()) {
            if fuzz.lt_spec(Scalar::zero_spec()) {
                Scalar::zero_spec()
            } else {
                fuzz
            }
        } else {
            Scalar::one_spec()
        }
    }

    /// A metal of the given colour and fuzz, the fuzz held between zero and
    /// one.
    pub fn new(albedo: Color, fuzz: Scalar) -> (m: Metal)
        ensures
            m.spec_albedo() == albedo,
            m.spec_fuzz() == Self::limited(fuzz),
    {
        let one = Scalar::one();
        let zero = Scalar::zero();
        let fuzz = if fuzz.lt(&one) {
            if fuzz.lt(&zero) {
                zero
            } else {
                fuzz
            }
        } else {
            one
        };
        Metal { albedo, fuzz }
    }

    pub fn albedo(&self) -> (c: Color)
        ensures
            c == self.spec_albedo(),
    {
        self.albedo
    }

    pub fn fuzz(&self) -> (f: Scalar)
        ensures
            f == self.spec_fuzz(),
            Scalar::zero_spec().le_spec(f),
            f.le_spec(Scalar::one_spec()),
    {
        proof {
            use_type_invariant(self);
        }
        self.fuzz
    }
}

impl Scatter for Metal {
    open spec fn takes(&self, sample: Sample) -> bool {
        sample is Glossy
    }

    /// A metal sends the ray on in the sampled direction, tinted by its
    /// colour, if that direction leaves the surface; a direction that does
    /// not rise above the surface is absorbed.
    open spec fn scattered(&self, ray_in: Ray, hit: HitRecord, sample: Sample) -> Option<
        (Ray, Color),
    > {
        match sample {
            Sample::Glossy { direction, along_normal } => if Scalar::zero_spec().lt_spec(
                along_normal,
            ) {
                Some((onward(ray_in, hit, direction), self.spec_albedo()))
            } else {
                None
            },
            _ => None,
        }
    }

    fn scatter(&self, ray_in: &Ray, hit: &HitRecord, sample: &Sample) -> (r: Option<(Ray, Color)>) {
        match sample {
            Sample::Glossy { direction, along_normal } => {
                if along_normal.gt(&Scalar::zero()) {
                    Some((Ray::new(hit.point, *direction, ray_in.time), self.albedo))
                } else {
                    None
                }
            },
            _ => None,
        }
    }
}

impl Dielectric {
    /// The ratio of the refractive indices that the ray passes between: the
    /// inverse of the material's index where the ray enters through the
    /// front face, the index itself where it leaves.
    pub open spec fn refraction_ratio_spec(self, front_face: bool, inverse: Scalar) -> Scalar {
        if front_face {
            inverse
        } else {
            self.0
        }
    }

    /// The refraction ratio at a hit; `inverse` is one divided by the
    /// material's index.
    pub fn refraction_ratio(&self, front_face: bool, inverse: Scalar) -> (r: Scalar)
        ensures
            r == self.refraction_ratio_spec(front_face, inverse),
    {
        if front_face {
            inverse
        } else {
            self.0
        }
    }

    /// No refracted ray exists: the refraction ratio times the sine of the
    /// angle of incidence exceeds one.
    pub open spec fn total_reflection_spec(ratio_sin_theta: Scalar) -> bool {
        Scalar::one_spec().lt_spec(ratio_sin_theta)
    }

    /// Whether the ray is mirrored rather than refracted: always under total
    /// internal reflection, else when the draw falls below the reflectance.
    pub open spec fn reflects(ratio_sin_theta: Scalar, reflectance: Scalar, draw: Scalar) -> bool {
        Self::total_reflection_spec(ratio_sin_theta) || draw.lt_spec(reflectance)
    }

    /// Whether the ray is reflected totally. Where it is, the reflectance
    /// and the draw play no part in the scattering.
    pub fn total_reflection(ratio_sin_theta: Scalar) -> (r: bool)
        ensures
            r == Self::total_reflection_spec(ratio_sin_theta),
            r ==> forall|reflectance: Scalar, draw: Scalar|
                #[trigger] Self::reflects(ratio_sin_theta, reflectance, draw),
    {
        ratio_sin_theta.gt(&Scalar::one())
    }
}

impl Scatter for Dielectric {
    open spec fn takes(&self, sample: Sample) -> bool {
        sample is Refractive
    }

    /// A dielectric absorbs nothing and tints nothing: the ray goes on,
    /// mirrored or refracted.
    open spec fn scattered(&self, ray_in: Ray, hit: HitRecord, sample: Sample) -> Option<
        (Ray, Color),
    > {
        match sample {
            Sample::Refractive { reflected, refracted, ratio_sin_theta, reflectance, draw } => {
                if Dielectric::reflects(ratio_sin_theta, reflectance, draw) {
                    Some((onward(ray_in, hit, reflected), white()))
                } else {
                    Some((onward(ray_in, hit, refracted), white()))
                }
            },
            _ => None,
        }
    }

    fn scatter(&self, ray_in: &Ray, hit: &HitRecord, sample: &Sample) -> (r: Option<(Ray, Color)>) {
        match sample {
            Sample::Refractive { reflected, refracted, ratio_sin_theta, reflectance, draw } => {
                let one = Scalar::one();
                let attenuation = Vec3::new(one, one, one);
                if ratio_sin_theta.gt(&one) {
                    Some((Ray::new(hit.point, *reflected, ray_in.time), attenuation))
                } else if draw.lt(reflectance) {
                    Some((Ray::new(hit.point, *reflected, ray_in.time), attenuation))
                } else {
                    Some((Ray::new(hit.point, *refracted, ray_in.time), attenuation))
                }
            },
            _ => None,
        }
    }
}

impl Sample {
    /// The sample holds the numbers that `material` decides with.
    pub fn fits(&self, material: &Material) -> (r: bool)
        ensures
            r == material.takes(*self),
    {
        match (material, self) {
            (Material::Lambertian(_), Sample::Diffuse { .. }) => true,
            (Material::Metal(_), Sample::Glossy { .. }) => true,
            (Material::Dielectric(_), Sample::Refractive { .. }) => true,
            _ => false,
        }
    }
}

impl Scatter for Material {
    open spec fn takes(&self, sample: Sample) -> bool {
        match self {
            Material::Lambertian(m) => m.takes(sample),
            Material::Metal(m) => m.takes(sample),
            Material::Dielectric(m) => m.takes(sample),
        }
    }

    open spec fn scattered(&self, ray_in: Ray, hit: HitRecord, sample: Sample) -> Option<
        (Ray, Color),
    > {
        match self {
            Material::Lambertian(m) => m.scattered(ray_in, hit, sample),
            Material::Metal(m) => m.scattered(ray_in, hit, sample),
            Material::Dielectric(m) => m.scattered(ray_in, hit, sample),
        }
    }

    fn scatter(&self, ray_in: &Ray, hit: &HitRecord, sample: &Sample) -> (r: Option<(Ray, Color)>) {
        match self {
            Material::Lambertian(m) => m.scatter(ray_in, hit, sample),
            Material::Metal(m) => m.scatter(ray_in, hit, sample),
            Material::Dielectric(m) => m.scatter(ray_in, hit, sample),
        }
    }
}

impl Material {
    /// A material of the same kind that scatters in the same way: the same
    /// texture, or the same colour and fuzz, or the same index.
    pub open spec fn alike(self, other: Material) -> bool {
        match (self, other) {
            (Material::Lambertian(a), Material::Lambertian(b)) => a.0.alike(b.0),
            (Material::Metal(a), Material::Metal(b)) => a == b,
            (Material::Dielectric(a), Material::Dielectric(b)) => a == b,
            _ => false,
        }
    }

    /// A copy of the material.
    pub fn duplicate(&self) -> (m: Material)
        ensures
            self.alike(m),
    {
        match self {
            Material::Lambertian(m) => Material::Lambertian(Lambertian(m.0.duplicate())),
            Material::Metal(m) => Material::Metal(*m),
            Material::Dielectric(m) => Material::Dielectric(*m),
        }
    }
}

impl From<Lambertian> for Material {
    fn from(material: Lambertian) -> (m: Material) {
        Material::Lambertian(material)
    }
}

impl vstd::std_specs::convert::FromSpecImpl<Lambertian> for Material {
    open spec fn obeys_from_spec() -> bool {
        true
    }

    open spec fn from_spec(material: Lambertian) -> Material {
        Material::Lambertian(material)
    }
}

impl From<Metal> for Material {
    fn from(material: Metal) -> (m: Material) {
        Material::Metal(material)
    }
}

impl vstd::std_specs::convert::FromSpecImpl<Metal> for Material {
    open spec fn obeys_from_spec() -> bool {
        true
    }

    open spec fn from_spec(material: Metal) -> Material {
        Material::Metal(material)
    }
}

impl From<Dielectric> for Material {
    fn from(material: Dielectric) -> (m: Material) {
        Material::Dielectric(material)
    }
}

impl vstd::std_specs::convert::FromSpecImpl<Dielectric> for Material {
    open spec fn obeys_from_spec() -> bool {
        true
    }

    open spec fn from_spec(material: Dielectric) -> Material {
        Material::Dielectric(material)
    }
}

impl Clone for Lambertian {
    fn clone(&self) -> (m: Self)
        ensures
            self.0.alike(m.0),
    {
        Lambertian(self.0.duplicate())
    }
}

impl Clone for Material {
    fn clone(&self) -> (m: Self)
        ensures
            self.alike(m),
    {
        self.duplicate()
    }
}

/// A metal hands on the direction it was given, whatever its fuzz: when the
/// caller adds no perturbation to the mirrored direction, the ray leaves
/// exactly mirrored. It absorbs exactly the directions that do not rise
/// above the surface.
pub proof fn lemma_metal_keeps_direction(
    metal: Metal,
    ray_in: Ray,
    hit: HitRecord,
    direction: Vec3,
    along_normal: Scalar,
)
    ensures
        Scalar::zero_spec().lt_spec(along_normal) ==> metal.scattered(
            ray_in,
            hit,
            Sample::Glossy { direction, along_normal },
        ) == Some((onward(ray_in, hit, direction), metal.spec_albedo())),
        !Scalar::zero_spec().lt_spec(along_normal) ==> metal.scattered(
            ray_in,
            hit,
            Sample::Glossy { direction, along_normal },
        ) is None,
{
}

/// At normal incidence the sine of the angle is zero, so the refraction
/// ratio times the sine cannot exceed one: there is no total internal
/// reflection, and a draw that is not below the reflectance refracts.
pub proof fn lemma_dielectric_refracts(
    glass: Dielectric,
    ray_in: Ray,
    hit: HitRecord,
    reflected: Vec3,
    refracted: Vec3,
    ratio_sin_theta: Scalar,
    reflectance: Scalar,
    draw: Scalar,
)
    requires
        ratio_sin_theta.is_zero_spec(),
        !draw.lt_spec(reflectance),
    ensures
        glass.scattered(
            ray_in,
            hit,
            Sample::Refractive { reflected, refracted, ratio_sin_theta, reflectance, draw },
        ) == Some((onward(ray_in, hit, refracted), white())),
{
}

/// Whatever sample fits a material, a diffuse surface and a dielectric send
/// the ray on: only a metal absorbs.
pub proof fn lemma_only_metal_absorbs(material: Material, ray_in: Ray, hit: HitRecord, sample: Sample)
    requires
        material.takes(sample),
        material.scattered(ray_in, hit, sample) is None,
    ensures
        material is Metal,
{
}

} // verus!
