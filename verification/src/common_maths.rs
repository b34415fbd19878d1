//! Shared vector helpers.

pub mod maths;
