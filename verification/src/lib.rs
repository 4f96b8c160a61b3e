//! Procedural generator for small symmetric pixel-art sprites.
//!
//! A random half-size grid is seeded, smoothed twice by a neighbor-counting
//! cellular automaton, grown with background padding on three sides, given an
//! outline band around the silhouette, and mirrored into a square grid.

pub mod bitmap;
pub mod pixel_map;
mod rng;
