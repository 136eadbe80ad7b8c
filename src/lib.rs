//! Plane classification and back-to-front ordering of convex planar polygons.
//!
//! Coordinates are integers and every distance is computed without loss, so
//! the test for a zero distance sum is exact rather than within a tolerance.
//! `plane` classifies one polygon against the plane of another; `splitter`
//! orders a set of polygons for a view direction through a BSP tree that calls
//! that classification, and `tree` describes the shape of that tree. Splitting
//! along a line would need points off the integer grid, so the tree never
//! splits a polygon that crosses the plane of another: it places it whole, by
//! the sign of its distance sum from that plane.

pub mod geometry;
pub mod plane;
pub mod splitter;
pub mod tree;
