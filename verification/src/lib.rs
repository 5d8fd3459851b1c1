//! Verified core of an elevation-map extractor.
//!
//! The library turns a geographic area (center, size, resolution) into a
//! regular grid of sample points, drives a batched fetch of per-point
//! elevations with partial-failure tolerance, and prepares the persisted
//! dataset and an optional grayscale rendering.
//!
//! Coordinates are held in fixed point as millionths of a degree and
//! elevations as millimeters, so that every step of the pipeline is plain
//! integer arithmetic with an exact contract.

pub mod codec;
pub mod fetch;
pub mod grid;
pub mod output;
pub mod render;
