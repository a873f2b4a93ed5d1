//! rat_king: fill-pattern tools for pen plotters.
//!
//! The verified part of the library: the pattern catalogue, the grid orders
//! of the space-filling curves, the Hershey font parser, the streaming SVG
//! analyzer with its queries, tree views and reports, and the decisions of
//! the interactive viewer and the banner generator.

pub mod text;
pub mod patterns;
pub mod curves;
pub mod hershey;
pub mod analyze;
pub mod common;
pub mod recipe;
pub mod swatches;
pub mod svg;
pub mod viewer;
pub mod banner;
