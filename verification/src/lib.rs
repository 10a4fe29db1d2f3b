//! The light-transport core of a physically based renderer: a bounding
//! volume hierarchy that finds what a ray meets, two integrators that
//! estimate the radiance along a ray (direct lighting and path tracing), and
//! the tile-wise rendering of an image, together with the colour, filter and
//! curve arithmetic that they rest on.
//!
//! Every quantity is a single-precision number held by its IEEE-754 encoding
//! (`Float`). Addition, subtraction, multiplication, division and the square
//! root are proved to give the number nearest to the exact result, so that
//! what is computed here is what the hardware computes on the same
//! encodings, and a rendering is the same wherever and however often it is
//! made.
//!
//! Shapes, lights, materials, cameras and samplers come from outside, as
//! implementations of the capability traits.

// numbers
pub mod float;
pub mod rounding;
pub mod arith;
pub mod convert;
pub mod root;
pub mod pbrt;

// geometry and the accelerator
pub mod geometry;
pub mod bounds;
pub mod bvh;
pub mod curve;

// colour and filters
pub mod cie;
pub mod spectrum;
pub mod emission;
pub mod paramset;
pub mod mitchell;

// integrators
pub mod integrator;
pub mod directlighting;
pub mod path;
pub mod scene;

// rendering
pub mod tiles;
pub mod film;
pub mod render;
pub mod sampler;
