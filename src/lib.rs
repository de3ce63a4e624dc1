//! Rendering of 3D scenes into a pixel buffer, through a ray tracer and a
//! scan-line rasterizer.
//!
//! This crate holds the discrete decisions of both pipelines, each proved
//! against its contract: the canvas with its centered coordinates and depth
//! buffer, colors, line drawing, the index pattern of a sphere mesh, frustum
//! clipping, scanline edges and depth-tested span filling, the choice of the
//! nearest sphere along a ray and the shadow test, and the camera commands
//! of a frame's keyboard input. Real-valued quantities (depths, ray
//! parameters, signed distances) reach it as the bit patterns of IEEE-754
//! doubles, compared by `ieee`.
use vstd::prelude::*;

pub mod canvas;
pub mod color;
pub mod controls;
pub mod ieee;
pub mod line;
pub mod mesh;
pub mod raster;
pub mod trace;

verus! {

} // verus!
