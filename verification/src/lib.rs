//! ATLDP — the verified core of the Alternative Transmission Line Design Program.
//!
//! The engineering numerics of the program (catenary, change of state, ruling span,
//! DEM interpolation, drawing geometry) are floating-point and run in the
//! application around this library. What is proved here is the exact, discrete
//! work they lean on:
//!
//! - [`analysis`] — which spans bear on each structure
//! - [`catenary`] — solver-method names and the core's error values
//! - [`hgt`]      — SRTM tile names, their parser, and raw tile decoding
//! - [`raster`]   — cropping, tile pasting and wireframes of row-major grids
//! - [`sheet`]    — markup escaping and the placeholder plan-&-profile sheet
//! - [`spotting`] — removing a spotted tower and moving the selection with it
//! - [`cli`]      — the command-line flag parser and sub-command dispatch
//! - [`model`]    — plain project metadata and the `.atldp` schema gate
//! - [`basemap`]  — the slippy-map tile window, tile decoding and compositing
use vstd::prelude::*;

pub mod analysis;
pub mod basemap;
pub mod catenary;
pub mod cli;
pub mod hgt;
pub mod model;
pub mod raster;
pub mod sheet;
pub mod spotting;
pub mod text;

verus! {

/// Library version, surfaced for the CLI "about" text and report provenance.
pub const VERSION: &'static str = "0.1.0";

} // verus!
