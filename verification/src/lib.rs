//! A small ray-tracing engine over fixed-point coordinates.
//!
//! Geometry, colours and distances are carried as signed integers scaled by
//! `fixed::ONE`, so that every intersection and shading computation has an
//! exact mathematical meaning that the contracts state and Verus checks.

pub mod colour;
pub mod common_maths;
pub mod csv;
pub mod doc;
pub mod fixed;
pub mod intersect;
pub mod objects;
pub mod camera;
pub mod renderer;
pub mod scene;
pub mod surfaces;
pub mod vec3;
