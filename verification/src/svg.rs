//! Errors of SVG polygon extraction.

use vstd::prelude::*;
use crate::text::{chars_of, push_str, string_of};

verus! {

/// Why no polygons could be taken from an SVG document.
#[derive(Debug, Clone, PartialEq, Eq)]
pub enum SvgError {
    /// The document could not be parsed; the parser's message.
    ParseError(String),
    /// The document holds no closed shape.
    NoPolygons,
}

/// The text shown for an error.
pub open spec fn svg_error_text(e: SvgError) -> Seq<char> {
    match e {
        SvgError::ParseError(msg) => "SVG parse error: "@ + msg@,
        SvgError::NoPolygons => "No polygons found in SVG"@,
    }
}

impl SvgError {
    /// The error as text: `SVG parse error: <message>` or
    /// `No polygons found in SVG`.
    pub fn message(&self) -> (r: String)
        ensures
            r@ == svg_error_text(*self),
    {
        match self {
            SvgError::ParseError(msg) => {
                let mut out: Vec<char> = Vec::new();
                push_str(&mut out, "SVG parse error: ");
                push_str(&mut out, msg.as_str());
                string_of(out.as_slice())
            },
            SvgError::NoPolygons => {
                let v = chars_of("No polygons found in SVG");
                string_of(v.as_slice())
            },
        }
    }
}

} // verus!
