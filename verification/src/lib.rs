//! A sketch-style vector geometry engine.
//!
//! The crate synthesizes "hand-drawn" renderings of geometric primitives
//! (lines, rectangles, polygons, ellipses, arcs) by perturbing their ideal
//! geometry with a caller-supplied, seedable random source, re-expressing
//! them as cubic curves, and optionally filling their interiors with
//! procedural patterns (hachure, zigzag, solid).
//!
//! All coordinates, angles and configuration knobs are fixed-point numbers
//! with six decimal places (micro-units), so that every computation is exact
//! integer arithmetic with stated truncation behaviour.

pub mod filler;
pub mod fixed;
pub mod generator;
pub mod geometry;
pub mod model;
pub mod renderer;
pub mod rng;
