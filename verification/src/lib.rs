//! The exact core of a sphere path tracer.
//!
//! The library holds the scene (surfaces, materials, textures, the noise
//! field's tables, the hierarchy of bounding boxes), every decision that
//! rendering takes (which root of the quadratic counts, which surface is hit
//! first, how a material scatters, when a path ends), the integrator that
//! follows a ray through the world, and the image serialiser.
//!
//! Quantities are held in their binary32 encoding (see [`scalar`]). The
//! library performs only operations that are exact on that encoding:
//! ordering, negation, clamping, casting to whole numbers. Rounding
//! arithmetic and chance are the caller's: sums, products, roots and
//! trigonometry, and random draws of real numbers. Their results enter as
//! arguments or through the functions that the caller hands to
//! [`world::World::hit`] and [`tracer::ray_color`].

pub mod scalar;
pub mod types;
pub mod aabb;
pub mod hierarchy;
pub mod perlin;
pub mod texture;
pub mod material;
pub mod intersections;
pub mod world;
pub mod random;
pub mod tracer;
pub mod render;
pub mod ppm;
