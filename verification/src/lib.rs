//! A path tracer for a small scene of spheres, and a lattice of voxels
//! with the faces that show it.
//!
//! The library makes every choice of the path tracer: which root of a
//! quadratic counts, which surface a ray meets first, which way a normal and
//! a scattered direction are turned, when a light path ends and how often
//! the sky it brings back is halved, and which byte a colour becomes. The
//! numbers it chooses by are double-precision numbers, held by their
//! encodings; the arithmetic that produces them is left to the caller.
//!
//! Beside it stand the parts of a voxel viewer that are plain integer work:
//! the lattice and its storage order, the triangle lists of the cube faces,
//! and a frame-rate meter.

pub mod canvas;
pub mod cube;
pub mod fps;
pub mod frame;
pub mod hit;
pub mod interval;
pub mod lattice;
pub mod march;
pub mod path;
pub mod scalar;
pub mod scatter;
pub mod single;
pub mod surface;
pub mod vector;
