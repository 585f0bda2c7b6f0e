//! Vectors and rays.

use vstd::prelude::*;
use crate::scalar::Scalar;

verus! {

/// Three quantities, read as a point, a direction or a colour.
#[derive(Clone, Copy, Debug, PartialEq, Eq, Structural)]
pub struct Vec3 {
    pub x: Scalar,
    pub y: Scalar,
    pub z: Scalar,
}

pub type Color = Vec3;

pub type Point3 = Vec3;

impl Vec3 {
    /// Every component with its sign flipped.
    pub open spec fn neg_spec(self) -> Vec3 {
        Vec3 { x: self.x.neg_spec(), y: self.y.neg_spec(), z: self.z.neg_spec() }
    }

    pub fn new(x: Scalar, y: Scalar, z: Scalar) -> (v: Vec3)
        ensures
            v == (Vec3 { x, y, z }),
    {
        Vec3 { x, y, z }
    }

    /// The vector whose components have the given bit patterns.
    pub fn from_bits(x: u32, y: u32, z: u32) -> (v: Vec3)
        ensures
            v.x.bits == x,
            v.y.bits == y,
            v.z.bits == z,
    {
        Vec3 { x: Scalar::from_bits(x), y: Scalar::from_bits(y), z: Scalar::from_bits(z) }
    }

    pub fn neg(&self) -> (v: Vec3)
        ensures
            v == self.neg_spec(),
    {
        Vec3 { x: self.x.neg(), y: self.y.neg(), z: self.z.neg() }
    }
}

/// A ray: where it starts, where it heads, and the moment it was cast.
#[derive(Clone, Copy, Debug, PartialEq, Eq, Structural)]
pub struct Ray {
    pub origin: Point3,
    pub direction: Vec3,
    pub time: Scalar,
}

impl Ray {
    pub fn new(origin: Point3, direction: Vec3, time: Scalar) -> (r: Ray)
        ensures
            r == (Ray { origin, direction, time }),
    {
        Ray { origin, direction, time }
    }

    pub fn origin(&self) -> (p: Point3)
        ensures
            p == self.origin,
    {
        self.origin
    }

    pub fn direction(&self) -> (d: Vec3)
        ensures
            d == self.direction,
    {
        self.direction
    }

    pub fn time(&self) -> (t: Scalar)
        ensures
            t == self.time,
    {
        self.time
    }
}

} // verus!
