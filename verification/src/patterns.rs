//! The catalogue of fill patterns and their names.

use vstd::prelude::*;
use crate::text::{to_lowercase, str_eq, unicode_lowercase, is_ascii_lower_word, is_ascii_text, ascii_lowercase};

verus! {

/// Available pattern types.
#[derive(Debug, Clone, Copy, PartialEq, Eq, Structural)]
pub enum Pattern {
    Lines,
    Crosshatch,
    Zigzag,
    Wiggle,
    Spiral,
    Fermat,
    Concentric,
    Radial,
    Honeycomb,
    Crossspiral,
    Hilbert,
    Guilloche,
    Lissajous,
    Rose,
    Phyllotaxis,
    Scribble,
    Gyroid,
}

/// The name of a pattern.
pub open spec fn pattern_name(p: Pattern) -> Seq<char> {
    match p {
        Pattern::Lines => "lines"@,
        Pattern::Crosshatch => "crosshatch"@,
        Pattern::Zigzag => "zigzag"@,
        Pattern::Wiggle => "wiggle"@,
        Pattern::Spiral => "spiral"@,
        Pattern::Fermat => "fermat"@,
        Pattern::Concentric => "concentric"@,
        Pattern::Radial => "radial"@,
        Pattern::Honeycomb => "honeycomb"@,
        Pattern::Crossspiral => "crossspiral"@,
        Pattern::Hilbert => "hilbert"@,
        Pattern::Guilloche => "guilloche"@,
        Pattern::Lissajous => "lissajous"@,
        Pattern::Rose => "rose"@,
        Pattern::Phyllotaxis => "phyllotaxis"@,
        Pattern::Scribble => "scribble"@,
        Pattern::Gyroid => "gyroid"@,
    }
}

/// The pattern that an already lowercased name denotes ("wave" and "sine"
/// are aliases of wiggle).
pub open spec fn pattern_for_lowercase(s: Seq<char>) -> Option<Pattern> {
    if s == "lines"@ { Some(Pattern::Lines) }
    else if s == "crosshatch"@ { Some(Pattern::Crosshatch) }
    else if s == "zigzag"@ { Some(Pattern::Zigzag) }
    else if s == "wiggle"@ || s == "wave"@ || s == "sine"@ { Some(Pattern::Wiggle) }
    else if s == "spiral"@ { Some(Pattern::Spiral) }
    else if s == "fermat"@ { Some(Pattern::Fermat) }
    else if s == "concentric"@ { Some(Pattern::Concentric) }
    else if s == "radial"@ { Some(Pattern::Radial) }
    else if s == "honeycomb"@ { Some(Pattern::Honeycomb) }
    else if s == "crossspiral"@ { Some(Pattern::Crossspiral) }
    else if s == "hilbert"@ { Some(Pattern::Hilbert) }
    else if s == "guilloche"@ { Some(Pattern::Guilloche) }
    else if s == "lissajous"@ { Some(Pattern::Lissajous) }
    else if s == "rose"@ { Some(Pattern::Rose) }
    else if s == "phyllotaxis"@ { Some(Pattern::Phyllotaxis) }
    else if s == "scribble"@ { Some(Pattern::Scribble) }
    else if s == "gyroid"@ { Some(Pattern::Gyroid) }
    else { None }
}

/// Every pattern, in catalogue order.
pub open spec fn all_patterns() -> Seq<Pattern> {
    seq![
        Pattern::Lines,
        Pattern::Crosshatch,
        Pattern::Zigzag,
        Pattern::Wiggle,
        Pattern::Spiral,
        Pattern::Fermat,
        Pattern::Concentric,
        Pattern::Radial,
        Pattern::Honeycomb,
        Pattern::Crossspiral,
        Pattern::Hilbert,
        Pattern::Guilloche,
        Pattern::Lissajous,
        Pattern::Rose,
        Pattern::Phyllotaxis,
        Pattern::Scribble,
        Pattern::Gyroid,
    ]
}

/// Notes on a pattern's edge cases and special features.
pub open spec fn pattern_notes(p: Pattern) -> Seq<char> {
    match p {
        Pattern::Lines | Pattern::Crosshatch => "angle: rotation | simple, fast"@,
        Pattern::Zigzag => "amplitude varies | sharp corners"@,
        Pattern::Wiggle => "smooth sine waves | resolution varies"@,
        Pattern::Spiral => "archimedean | center artifacts"@,
        Pattern::Fermat => "parabolic spiral | bidirectional"@,
        Pattern::Concentric => "follows shape | no angle param"@,
        Pattern::Radial => "ray count fixed | center origin"@,
        Pattern::Honeycomb => "hex cells | edge clipping"@,
        Pattern::Crossspiral => "dual spiral arms | moire effects"@,
        Pattern::Hilbert => "space-filling | recursive depth"@,
        Pattern::Guilloche => "spirograph-like | high complexity"@,
        Pattern::Lissajous => "frequency ratio | closed loops"@,
        Pattern::Rose => "petal count | odd/even differ"@,
        Pattern::Phyllotaxis => "golden angle | sunflower seeds"@,
        Pattern::Scribble => "random chaos | non-deterministic"@,
        Pattern::Gyroid => "3D projection | organic curves"@,
    }
}

/// Pattern-specific notes for edge cases and special features.
pub fn get_pattern_notes(pattern: &Pattern) -> (r: &'static str)
    ensures
        r@ == pattern_notes(*pattern),
{
    match pattern {
        Pattern::Lines | Pattern::Crosshatch => "angle: rotation | simple, fast",
        Pattern::Zigzag => "amplitude varies | sharp corners",
        Pattern::Wiggle => "smooth sine waves | resolution varies",
        Pattern::Spiral => "archimedean | center artifacts",
        Pattern::Fermat => "parabolic spiral | bidirectional",
        Pattern::Concentric => "follows shape | no angle param",
        Pattern::Radial => "ray count fixed | center origin",
        Pattern::Honeycomb => "hex cells | edge clipping",
        Pattern::Crossspiral => "dual spiral arms | moire effects",
        Pattern::Hilbert => "space-filling | recursive depth",
        Pattern::Guilloche => "spirograph-like | high complexity",
        Pattern::Lissajous => "frequency ratio | closed loops",
        Pattern::Rose => "petal count | odd/even differ",
        Pattern::Phyllotaxis => "golden angle | sunflower seeds",
        Pattern::Scribble => "random chaos | non-deterministic",
        Pattern::Gyroid => "3D projection | organic curves",
    }
}

/// Each pattern's name is a lowercase ASCII word that parses back to the
/// pattern, so `Pattern::from_name(p.name())` is `Some(p)`.
pub proof fn pattern_name_round_trip(p: Pattern)
    ensures
        is_ascii_lower_word(pattern_name(p)),
        pattern_for_lowercase(pattern_name(p)) == Some(p),
{
    reveal_strlit("lines");
    reveal_strlit("crosshatch");
    reveal_strlit("zigzag");
    reveal_strlit("wiggle");
    reveal_strlit("spiral");
    reveal_strlit("fermat");
    reveal_strlit("concentric");
    reveal_strlit("radial");
    reveal_strlit("honeycomb");
    reveal_strlit("crossspiral");
    reveal_strlit("hilbert");
    reveal_strlit("guilloche");
    reveal_strlit("lissajous");
    reveal_strlit("rose");
    reveal_strlit("phyllotaxis");
    reveal_strlit("scribble");
    reveal_strlit("gyroid");
    reveal_strlit("wave");
    reveal_strlit("sine");
    assert("lines"@[0] == 'l' && "lines"@[1] == 'i' && "lines"@[2] == 'n' && "lines"@.len() == 5);
    assert("crosshatch"@[0] == 'c' && "crosshatch"@[1] == 'r' && "crosshatch"@[2] == 'o' && "crosshatch"@.len() == 10);
    assert("zigzag"@[0] == 'z' && "zigzag"@[1] == 'i' && "zigzag"@[2] == 'g' && "zigzag"@.len() == 6);
    assert("wiggle"@[0] == 'w' && "wiggle"@[1] == 'i' && "wiggle"@[2] == 'g' && "wiggle"@.len() == 6);
    assert("spiral"@[0] == 's' && "spiral"@[1] == 'p' && "spiral"@[2] == 'i' && "spiral"@.len() == 6);
    assert("fermat"@[0] == 'f' && "fermat"@[1] == 'e' && "fermat"@[2] == 'r' && "fermat"@.len() == 6);
    assert("concentric"@[0] == 'c' && "concentric"@[1] == 'o' && "concentric"@[2] == 'n' && "concentric"@.len() == 10);
    assert("radial"@[0] == 'r' && "radial"@[1] == 'a' && "radial"@[2] == 'd' && "radial"@.len() == 6);
    assert("honeycomb"@[0] == 'h' && "honeycomb"@[1] == 'o' && "honeycomb"@[2] == 'n' && "honeycomb"@.len() == 9);
    assert("crossspiral"@[0] == 'c' && "crossspiral"@[1] == 'r' && "crossspiral"@[2] == 'o' && "crossspiral"@.len() == 11);
    assert("hilbert"@[0] == 'h' && "hilbert"@[1] == 'i' && "hilbert"@[2] == 'l' && "hilbert"@.len() == 7);
    assert("guilloche"@[0] == 'g' && "guilloche"@[1] == 'u' && "guilloche"@[2] == 'i' && "guilloche"@.len() == 9);
    assert("lissajous"@[0] == 'l' && "lissajous"@[1] == 'i' && "lissajous"@[2] == 's' && "lissajous"@.len() == 9);
    assert("rose"@[0] == 'r' && "rose"@[1] == 'o' && "rose"@[2] == 's' && "rose"@.len() == 4);
    assert("phyllotaxis"@[0] == 'p' && "phyllotaxis"@[1] == 'h' && "phyllotaxis"@[2] == 'y' && "phyllotaxis"@.len() == 11);
    assert("scribble"@[0] == 's' && "scribble"@[1] == 'c' && "scribble"@[2] == 'r' && "scribble"@.len() == 8);
    assert("gyroid"@[0] == 'g' && "gyroid"@[1] == 'y' && "gyroid"@[2] == 'r' && "gyroid"@.len() == 6);
    assert("wave"@[0] == 'w' && "wave"@[1] == 'a' && "wave"@[2] == 'v' && "wave"@.len() == 4);
    assert("sine"@[0] == 's' && "sine"@[1] == 'i' && "sine"@[2] == 'n' && "sine"@.len() == 4);
}

/// The catalogue lists every pattern exactly once.
pub proof fn all_patterns_listed_once(p: Pattern)
    ensures
        all_patterns().contains(p),
        all_patterns().no_duplicates(),
{
    let s = all_patterns();
    match p {
        Pattern::Lines => assert(s[0] == p),
        Pattern::Crosshatch => assert(s[1] == p),
        Pattern::Zigzag => assert(s[2] == p),
        Pattern::Wiggle => assert(s[3] == p),
        Pattern::Spiral => assert(s[4] == p),
        Pattern::Fermat => assert(s[5] == p),
        Pattern::Concentric => assert(s[6] == p),
        Pattern::Radial => assert(s[7] == p),
        Pattern::Honeycomb => assert(s[8] == p),
        Pattern::Crossspiral => assert(s[9] == p),
        Pattern::Hilbert => assert(s[10] == p),
        Pattern::Guilloche => assert(s[11] == p),
        Pattern::Lissajous => assert(s[12] == p),
        Pattern::Rose => assert(s[13] == p),
        Pattern::Phyllotaxis => assert(s[14] == p),
        Pattern::Scribble => assert(s[15] == p),
        Pattern::Gyroid => assert(s[16] == p),
    }
}

impl Pattern {
    /// Get pattern name as string.
    pub fn name(&self) -> (r: &'static str)
        ensures
            r@ == pattern_name(*self),
    {
        match self {
            Pattern::Lines => "lines",
            Pattern::Crosshatch => "crosshatch",
            Pattern::Zigzag => "zigzag",
            Pattern::Wiggle => "wiggle",
            Pattern::Spiral => "spiral",
            Pattern::Fermat => "fermat",
            Pattern::Concentric => "concentric",
            Pattern::Radial => "radial",
            Pattern::Honeycomb => "honeycomb",
            Pattern::Crossspiral => "crossspiral",
            Pattern::Hilbert => "hilbert",
            Pattern::Guilloche => "guilloche",
            Pattern::Lissajous => "lissajous",
            Pattern::Rose => "rose",
            Pattern::Phyllotaxis => "phyllotaxis",
            Pattern::Scribble => "scribble",
            Pattern::Gyroid => "gyroid",
        }
    }

    /// Parse a pattern from a name that is already lowercase.
    pub fn from_lowercase_name(name: &str) -> (r: Option<Pattern>)
        ensures
            r == pattern_for_lowercase(name@),
    {
        if str_eq(name, "lines") { Some(Pattern::Lines) }
        else if str_eq(name, "crosshatch") { Some(Pattern::Crosshatch) }
        else if str_eq(name, "zigzag") { Some(Pattern::Zigzag) }
        else if str_eq(name, "wiggle") || str_eq(name, "wave") || str_eq(name, "sine") { Some(Pattern::Wiggle) }
        else if str_eq(name, "spiral") { Some(Pattern::Spiral) }
        else if str_eq(name, "fermat") { Some(Pattern::Fermat) }
        else if str_eq(name, "concentric") { Some(Pattern::Concentric) }
        else if str_eq(name, "radial") { Some(Pattern::Radial) }
        else if str_eq(name, "honeycomb") { Some(Pattern::Honeycomb) }
        else if str_eq(name, "crossspiral") { Some(Pattern::Crossspiral) }
        else if str_eq(name, "hilbert") { Some(Pattern::Hilbert) }
        else if str_eq(name, "guilloche") { Some(Pattern::Guilloche) }
        else if str_eq(name, "lissajous") { Some(Pattern::Lissajous) }
        else if str_eq(name, "rose") { Some(Pattern::Rose) }
        else if str_eq(name, "phyllotaxis") { Some(Pattern::Phyllotaxis) }
        else if str_eq(name, "scribble") { Some(Pattern::Scribble) }
        else if str_eq(name, "gyroid") { Some(Pattern::Gyroid) }
        else { None }
    }

    /// Parse a pattern from a name, ignoring case.
    pub fn from_name(name: &str) -> (r: Option<Pattern>)
        ensures
            r == pattern_for_lowercase(unicode_lowercase(name@)),
            is_ascii_text(name@) ==> r == pattern_for_lowercase(ascii_lowercase(name@)),
    {
        let lowered = to_lowercase(name);
        Pattern::from_lowercase_name(lowered.as_str())
    }

    /// Get all available patterns.
    pub fn all() -> (r: &'static [Pattern])
        ensures
            r@ == all_patterns(),
    {
        &[
            Pattern::Lines,
            Pattern::Crosshatch,
            Pattern::Zigzag,
            Pattern::Wiggle,
            Pattern::Spiral,
            Pattern::Fermat,
            Pattern::Concentric,
            Pattern::Radial,
            Pattern::Honeycomb,
            Pattern::Crossspiral,
            Pattern::Hilbert,
            Pattern::Guilloche,
            Pattern::Lissajous,
            Pattern::Rose,
            Pattern::Phyllotaxis,
            Pattern::Scribble,
            Pattern::Gyroid,
        ]
    }
}

} // verus!
