//! What is decided about random vectors once they are drawn.
//!
//! Drawing the coordinates and measuring the vector are the caller's; whether
//! a candidate is kept, and which way it is turned, is decided here.

use vstd::prelude::*;
use crate::scalar::Scalar;
use crate::types::Vec3;

verus! {

/// A candidate with the given squared length is kept by the rejection
/// sampling of the unit ball and of the unit disk: it is thrown away only
/// when the squared length is at least one.
pub open spec fn keeps_spec(magnitude_squared: Scalar) -> bool {
    !Scalar::one_spec().le_spec(magnitude_squared)
}

/// A vector on the side of the surface to which the normal points: the
/// candidate itself where its dot product with the normal is above zero,
/// else the opposite vector.
pub open spec fn rand_in_hemisphere_spec(candidate: Vec3, along_normal: Scalar) -> Vec3 {
    if Scalar::zero_spec().lt_spec(along_normal) {
        candidate
    } else {
        candidate.neg_spec()
    }
}

/// Whether rejection sampling keeps a candidate with the given squared
/// length.
pub fn keeps(magnitude_squared: Scalar) -> (r: bool)
    ensures
        r == keeps_spec(magnitude_squared),
{
    !magnitude_squared.ge(&Scalar::one())
}

/// Turns a point drawn from the unit ball to the side of the surface to
/// which the normal points. `along_normal` is the dot product of the
/// candidate with the normal.
pub fn rand_in_hemisphere(candidate: Vec3, along_normal: Scalar) -> (r: Vec3)
    ensures
        r == rand_in_hemisphere_spec(candidate, along_normal),
{
    if along_normal.gt(&Scalar::zero()) {
        candidate
    } else {
        candidate.neg()
    }
}

} // verus!
