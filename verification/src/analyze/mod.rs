//! SVG analysis: structured summaries of large SVG files (element counts,
//! layers, colors) gathered in one streaming pass, queries and hierarchy
//! views over a parsed document, and the text report.

pub mod types;
pub mod tree;
pub mod colors;
pub mod size;
pub mod viewbox;
pub mod xml;
pub mod streaming;
pub mod nodes;
pub mod report;
