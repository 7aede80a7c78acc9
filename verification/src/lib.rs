//! A software rasterizer: continuous mathematical objects are mapped onto a
//! discrete pixel grid, mutated in place, and serialized to bitmap or PNG
//! bytes.
//!
//! This crate holds the verified core: the pixel grid and its rasterization
//! primitives, the flood fill, the byte-exact encoders, and the
//! file-naming rules for animation frames. Continuous-plane geometry (points,
//! parametric curves, thickness resolution) lives outside, in unverified
//! callers that hand pixel-space values to this crate.

pub mod animation;
pub mod colours;
pub mod errors;
pub mod fill;
pub mod maths_objects;
pub mod numerals;
pub mod output;
pub mod rendering;
