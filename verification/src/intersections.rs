//! Surfaces and hit records.
//!
//! Solving the ray-sphere quadratic is rounding arithmetic and is done by
//! the caller, who hands in, for each surface to be tested, a [`Solution`]:
//! the discriminant and what the ray meets at either root. Everything that
//! is decided from those numbers is decided here: whether there is a hit at
//! all, which root counts, and which way the normal faces.

use vstd::prelude::*;
use crate::scalar::Scalar;
use crate::types::{Point3, Vec3};
use crate::material::Material;
use crate::aabb::Aabb;

verus! {

/// What a ray meets at one root of the quadratic.
#[derive(Clone, Copy, Debug, PartialEq, Eq, Structural)]
pub struct Crossing {
    /// Parametric distance along the ray.
    pub t: Scalar,
    /// The point `origin + t * direction`.
    pub point: Point3,
    /// Unit normal at the point, facing away from the surface's centre.
    pub normal: Vec3,
    /// Surface coordinate from the azimuth.
    pub u: Scalar,
    /// Surface coordinate from the polar angle.
    pub v: Scalar,
    /// Dot product of the ray's direction with `normal`.
    pub facing: Scalar,
}

/// The ray-sphere quadratic, solved: its discriminant and the crossings at
/// the smaller and at the larger root. The crossings count only where the
/// discriminant is positive.
#[derive(Clone, Copy, Debug, PartialEq, Eq, Structural)]
pub struct Solution {
    pub discriminant: Scalar,
    pub near: Crossing,
    pub far: Crossing,
}

/// The record of an intersection.
#[derive(Debug)]
pub struct HitRecord<'a> {
    pub point: Point3,
    pub u: Scalar,
    pub v: Scalar,
    /// Unit normal, turned against the incoming ray.
    pub normal: Vec3,
    pub t: Scalar,
    /// The ray came from outside the surface.
    pub front_face: bool,
    pub material: &'a Material,
}

#[derive(Debug)]
pub struct Sphere {
    pub center: Point3,
    pub radius: Scalar,
    pub material: Material,
}

/// A sphere whose centre moves in a straight line from `center1` at `time1`
/// to `center2` at `time2`.
#[derive(Debug)]
pub struct MovingSphere {
    pub center1: Point3,
    pub time1: Scalar,
    pub center2: Point3,
    pub time2: Scalar,
    pub radius: Scalar,
    pub material: Material,
}

/// The kinds of surface.
#[derive(Debug)]
pub enum Surface {
    Sphere(Sphere),
    MovingSphere(MovingSphere),
}

/// Why a surface is refused.
#[derive(Clone, Copy, Debug, PartialEq, Eq, Structural)]
pub enum SceneError {
    /// The radius is not above zero.
    Radius,
    /// The two keyframes of a moving sphere are at the same time, or a time
    /// is NaN.
    Keyframes,
    /// The table is no hierarchy over the boxes of the surfaces.
    Hierarchy,
}

/// A surface of the world with its bounding box.
#[derive(Debug)]
pub struct WorldObject {
    pub inner: Surface,
    pub aabb: Aabb,
}

/// What a ray can hit.
pub trait Hittable {
    /// The nearest intersection with parametric distance strictly inside
    /// `(t_min, t_max)`, given the quadratic solved for the surface.
    spec fn hit_spec(&self, solution: Solution, t_min: Scalar, t_max: Scalar) -> Option<
        HitRecord<'static>,
    >;

    fn hit(&self, solution: &Solution, t_min: Scalar, t_max: Scalar) -> (r: Option<HitRecord<'_>>)
        ensures
            r == self.hit_spec(*solution, t_min, t_max),
    ;
}

/// `t` lies strictly between the bounds.
pub open spec fn inside(t: Scalar, t_min: Scalar, t_max: Scalar) -> bool {
    t_min.lt_spec(t) && t.lt_spec(t_max)
}

/// The record of `crossing` on a surface of the given material: the normal
/// is kept where it faces the ray and flipped where it does not.
pub open spec fn record<'a>(crossing: Crossing, material: &'a Material) -> HitRecord<'a> {
    let front_face = crossing.facing.lt_spec(Scalar::zero_spec());
    HitRecord {
        point: crossing.point,
        u: crossing.u,
        v: crossing.v,
        normal: if front_face {
            crossing.normal
        } else {
            crossing.normal.neg_spec()
        },
        t: crossing.t,
        front_face,
        material,
    }
}

impl Solution {
    /// The crossing that counts as the hit within `(t_min, t_max)`: none
    /// unless the discriminant is positive; then the near one if its
    /// distance lies inside the bounds, else the far one if its does.
    pub open spec fn first_inside_spec(self, t_min: Scalar, t_max: Scalar) -> Option<Crossing> {
        if Scalar::zero_spec().lt_spec(self.discriminant) {
            if inside(self.near.t, t_min, t_max) {
                Some(self.near)
            } else if inside(self.far.t, t_min, t_max) {
                Some(self.far)
            } else {
                None
            }
        } else {
            None
        }
    }

    /// The far root is not below the near one.
    pub open spec fn ascending(self) -> bool {
        !self.far.t.lt_spec(self.near.t)
    }

    /// The quadratic has a root above `t_min` and at or below `t`.
    pub open spec fn reaches(self, t_min: Scalar, t: Scalar) -> bool {
        &&& Scalar::zero_spec().lt_spec(self.discriminant)
        &&& (t_min.lt_spec(self.near.t) && self.near.t.le_spec(t)) || (t_min.lt_spec(self.far.t)
            && self.far.t.le_spec(t))
    }

    pub fn first_inside(&self, t_min: Scalar, t_max: Scalar) -> (c: Option<Crossing>)
        ensures
            c == self.first_inside_spec(t_min, t_max),
    {
        if self.discriminant.gt(&Scalar::zero()) {
            if self.near.t.gt(&t_min) && self.near.t.lt(&t_max) {
                return Some(self.near);
            }
            if self.far.t.gt(&t_min) && self.far.t.lt(&t_max) {
                return Some(self.far);
            }
        }
        None
    }
}

impl<'a> HitRecord<'a> {
    /// Turns the normal against the incoming ray. `facing` is the dot
    /// product of the ray's direction with the normal as it stands.
    pub fn set_face_normal(&mut self, facing: Scalar)
        ensures
            final(self).front_face == facing.lt_spec(Scalar::zero_spec()),
            final(self).normal == if facing.lt_spec(Scalar::zero_spec()) {
                old(self).normal
            } else {
                old(self).normal.neg_spec()
            },
            final(self).point == old(self).point,
            final(self).u == old(self).u,
            final(self).v == old(self).v,
            final(self).t == old(self).t,
            final(self).material == old(self).material,
    {
        self.front_face = facing.lt(&Scalar::zero());
        if !self.front_face {
            self.normal = self.normal.neg();
        }
    }
}

/// The record of the crossing that counts, if one does.
pub open spec fn hit_of<'a>(
    material: &'a Material,
    solution: Solution,
    t_min: Scalar,
    t_max: Scalar,
) -> Option<HitRecord<'a>> {
    match solution.first_inside_spec(t_min, t_max) {
        Some(crossing) => Some(record(crossing, material)),
        None => None,
    }
}

fn hit_with<'a>(material: &'a Material, solution: &Solution, t_min: Scalar, t_max: Scalar) -> (r:
    Option<HitRecord<'a>>)
    ensures
        r == hit_of(material, *solution, t_min, t_max),
{
    match solution.first_inside(t_min, t_max) {
        Some(crossing) => {
            let mut result = HitRecord {
                point: crossing.point,
                normal: crossing.normal,
                t: crossing.t,
                front_face: true,
                material,
                u: crossing.u,
                v: crossing.v,
            };
            result.set_face_normal(crossing.facing);
            Some(result)
        },
        None => None,
    }
}

impl Sphere {
    /// The radius is above zero.
    pub open spec fn valid(self) -> bool {
        Scalar::zero_spec().lt_spec(self.radius)
    }
}

impl Hittable for Sphere {
    open spec fn hit_spec(&self, solution: Solution, t_min: Scalar, t_max: Scalar) -> Option<
        HitRecord<'static>,
    > {
        hit_of(&self.material, solution, t_min, t_max)
    }

    fn hit(&self, solution: &Solution, t_min: Scalar, t_max: Scalar) -> (r: Option<HitRecord<'_>>) {
        hit_with(&self.material, solution, t_min, t_max)
    }
}

impl MovingSphere {
    /// The keyframes are at different times, neither of them NaN.
    pub open spec fn keyframes_differ(self) -> bool {
        self.time1.lt_spec(self.time2) || self.time2.lt_spec(self.time1)
    }

    /// The radius is above zero and the keyframes are at different times.
    pub open spec fn valid(self) -> bool {
        Scalar::zero_spec().lt_spec(self.radius) && self.keyframes_differ()
    }

    /// The box of the whole motion: the union of the boxes at the two
    /// keyframes.
    pub fn aabb(&self, at_time1: &Aabb, at_time2: &Aabb) -> (b: Aabb)
        ensures
            b.is_join_of(*at_time1, *at_time2),
            b.encloses(*at_time1),
            b.encloses(*at_time2),
    {
        at_time1.join(at_time2)
    }
}

/// A moving sphere is hit like a sphere: the quadratic is solved for the
/// sphere where it is at the ray's time.
impl Hittable for MovingSphere {
    open spec fn hit_spec(&self, solution: Solution, t_min: Scalar, t_max: Scalar) -> Option<
        HitRecord<'static>,
    > {
        hit_of(&self.material, solution, t_min, t_max)
    }

    fn hit(&self, solution: &Solution, t_min: Scalar, t_max: Scalar) -> (r: Option<HitRecord<'_>>) {
        hit_with(&self.material, solution, t_min, t_max)
    }
}

impl Surface {
    pub open spec fn spec_material(self) -> Material {
        match self {
            Surface::Sphere(s) => s.material,
            Surface::MovingSphere(s) => s.material,
        }
    }

    /// What is wrong with the surface, if anything: the radius is looked at
    /// first.
    pub open spec fn defect(self) -> Option<SceneError> {
        match self {
            Surface::Sphere(s) => if s.valid() {
                None
            } else {
                Some(SceneError::Radius)
            },
            Surface::MovingSphere(s) => if !Scalar::zero_spec().lt_spec(s.radius) {
                Some(SceneError::Radius)
            } else if !s.keyframes_differ() {
                Some(SceneError::Keyframes)
            } else {
                None
            },
        }
    }

    pub fn material(&self) -> (m: &Material)
        ensures
            *m == self.spec_material(),
    {
        match self {
            Surface::Sphere(s) => &s.material,
            Surface::MovingSphere(s) => &s.material,
        }
    }

    /// Checks the surface: `Ok` for a sphere with a radius above zero and,
    /// if it moves, keyframes at different times.
    pub fn validate(&self) -> (r: Result<(), SceneError>)
        ensures
            match r {
                Ok(_) => self.defect() is None,
                Err(e) => self.defect() == Some(e),
            },
    {
        let zero = Scalar::zero();
        match self {
            Surface::Sphere(s) => {
                if s.radius.gt(&zero) {
                    Ok(())
                } else {
                    Err(SceneError::Radius)
                }
            },
            Surface::MovingSphere(s) => {
                if !s.radius.gt(&zero) {
                    Err(SceneError::Radius)
                } else if !(s.time1.lt(&s.time2) || s.time2.lt(&s.time1)) {
                    Err(SceneError::Keyframes)
                } else {
                    Ok(())
                }
            },
        }
    }
}

impl Hittable for Surface {
    open spec fn hit_spec(&self, solution: Solution, t_min: Scalar, t_max: Scalar) -> Option<
        HitRecord<'static>,
    > {
        hit_of(&self.spec_material(), solution, t_min, t_max)
    }

    fn hit(&self, solution: &Solution, t_min: Scalar, t_max: Scalar) -> (r: Option<HitRecord<'_>>) {
        match self {
            Surface::Sphere(s) => s.hit(solution, t_min, t_max),
            Surface::MovingSphere(s) => s.hit(solution, t_min, t_max),
        }
    }
}

impl Hittable for WorldObject {
    open spec fn hit_spec(&self, solution: Solution, t_min: Scalar, t_max: Scalar) -> Option<
        HitRecord<'static>,
    > {
        self.inner.hit_spec(solution, t_min, t_max)
    }

    fn hit(&self, solution: &Solution, t_min: Scalar, t_max: Scalar) -> (r: Option<HitRecord<'_>>) {
        self.inner.hit(solution, t_min, t_max)
    }
}

impl WorldObject {
    pub fn aabb(&self) -> (b: Aabb)
        ensures
            b == self.aabb,
    {
        self.aabb
    }
}

} // verus!
