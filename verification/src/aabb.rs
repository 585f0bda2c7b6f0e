//! Axis-aligned bounding boxes.

use vstd::prelude::*;
use crate::scalar::Scalar;
use crate::types::Point3;

verus! {

/// The smaller of two quantities (the first, unless the second is below it).
pub open spec fn lower_of(a: Scalar, b: Scalar) -> Scalar {
    if b.lt_spec(a) {
        b
    } else {
        a
    }
}

/// The larger of two quantities (the first, unless the second is above it).
pub open spec fn upper_of(a: Scalar, b: Scalar) -> Scalar {
    if a.lt_spec(b) {
        b
    } else {
        a
    }
}

/// `min` is at or below `max` along every axis (so no coordinate is NaN).
pub open spec fn ordered(min: Point3, max: Point3) -> bool {
    &&& min.x.le_spec(max.x)
    &&& min.y.le_spec(max.y)
    &&& min.z.le_spec(max.z)
}

/// A box given by its lowest and highest corner, the lowest at or below the
/// highest along every axis.
#[derive(Clone, Copy, Debug)]
pub struct Aabb {
    min: Point3,
    max: Point3,
}

impl Aabb {
    #[verifier::type_invariant]
    closed spec fn inv(self) -> bool {
        ordered(self.min, self.max)
    }

    /// The lowest corner.
    pub closed spec fn lower(self) -> Point3 {
        self.min
    }

    /// The highest corner.
    pub closed spec fn upper(self) -> Point3 {
        self.max
    }

    /// This box is the union of `first` and `second`: along every axis its
    /// lowest corner is the lower of their lowest corners and its highest
    /// corner the higher of their highest.
    pub open spec fn is_join_of(self, first: Aabb, second: Aabb) -> bool {
        &&& self.lower().x == lower_of(first.lower().x, second.lower().x)
        &&& self.lower().y == lower_of(first.lower().y, second.lower().y)
        &&& self.lower().z == lower_of(first.lower().z, second.lower().z)
        &&& self.upper().x == upper_of(first.upper().x, second.upper().x)
        &&& self.upper().y == upper_of(first.upper().y, second.upper().y)
        &&& self.upper().z == upper_of(first.upper().z, second.upper().z)
    }

    /// `inner` lies within this box.
    pub open spec fn encloses(self, inner: Aabb) -> bool {
        &&& ordered(self.lower(), inner.lower())
        &&& ordered(inner.upper(), self.upper())
    }

    /// The box with the given corners, or `None` unless `min` is at or below
    /// `max` along every axis.
    pub fn with_bounds(min: Point3, max: Point3) -> (b: Option<Aabb>)
        ensures
            b is Some <==> ordered(min, max),
            b is Some ==> b->0.lower() == min && b->0.upper() == max,
    {
        if min.x.le(&max.x) && min.y.le(&max.y) && min.z.le(&max.z) {
            Some(Aabb { min, max })
        } else {
            None
        }
    }

    /// Whether `inner` lies within this box.
    pub fn surrounds(&self, inner: &Aabb) -> (r: bool)
        ensures
            r == self.encloses(*inner),
    {
        self.min.x.le(&inner.min.x) && self.min.y.le(&inner.min.y) && self.min.z.le(&inner.min.z)
            && inner.max.x.le(&self.max.x) && inner.max.y.le(&self.max.y) && inner.max.z.le(
            &self.max.z,
        )
    }

    pub fn min(&self) -> (p: Point3)
        ensures
            p == self.lower(),
            ordered(self.lower(), self.upper()),
    {
        proof {
            use_type_invariant(self);
        }
        self.min
    }

    pub fn max(&self) -> (p: Point3)
        ensures
            p == self.upper(),
            ordered(self.lower(), self.upper()),
    {
        proof {
            use_type_invariant(self);
        }
        self.max
    }

    /// The smallest box that holds both boxes.
    pub fn join(&self, other: &Aabb) -> (b: Aabb)
        ensures
            b.is_join_of(*self, *other),
            b.encloses(*self),
            b.encloses(*other),
    {
        proof {
            use_type_invariant(self);
            use_type_invariant(other);
        }
        Aabb {
            min: Point3 {
                x: pick_lower(self.min.x, other.min.x),
                y: pick_lower(self.min.y, other.min.y),
                z: pick_lower(self.min.z, other.min.z),
            },
            max: Point3 {
                x: pick_upper(self.max.x, other.max.x),
                y: pick_upper(self.max.y, other.max.y),
                z: pick_upper(self.max.z, other.max.z),
            },
        }
    }
}

/// A box within a box within a box lies within the outermost.
pub proof fn lemma_encloses_transitive(outer: Aabb, middle: Aabb, inner: Aabb)
    requires
        outer.encloses(middle),
        middle.encloses(inner),
    ensures
        outer.encloses(inner),
{
}

fn pick_lower(a: Scalar, b: Scalar) -> (r: Scalar)
    ensures
        r == lower_of(a, b),
{
    if b.lt(&a) {
        b
    } else {
        a
    }
}

fn pick_upper(a: Scalar, b: Scalar) -> (r: Scalar)
    ensures
        r == upper_of(a, b),
{
    if a.lt(&b) {
        b
    } else {
        a
    }
}

} // verus!
