//! Decisions of the pattern banner: which patterns may appear, and the
//! random pattern, color and angle of each cell.

use vstd::prelude::*;
use rand::rngs::StdRng;
use rand::seq::IndexedRandom;
use rand::Rng;
use crate::patterns::{all_patterns, pattern_name, Pattern};
use crate::text::chars_of;

verus! {

#[verifier::external_type_specification]
#[verifier::external_body]
pub struct ExStdRng(StdRng);

/// Calls rand's `Rng::random_range` on `lo..hi` for `usize`: a value in
/// `[lo, hi)` (the call panics on an empty range, which `requires` rules
/// out). Which value comes depends on the generator's state; nothing more
/// is stated of it, nor of the generator's new state.
#[verifier::external_body]
fn random_index(rng: &mut StdRng, lo: usize, hi: usize) -> (r: usize)
    requires
        lo < hi,
    ensures
        lo <= r < hi,
{
    rng.random_range(lo..hi)
}

/// Calls rand's `Rng::random_range` on `lo..hi` for `i32`: a value in
/// `[lo, hi)` (the call panics on an empty range, which `requires` rules
/// out). Which value comes depends on the generator's state.
#[verifier::external_body]
fn random_i32(rng: &mut StdRng, lo: i32, hi: i32) -> (r: i32)
    requires
        lo < hi,
    ensures
        lo <= r < hi,
{
    rng.random_range(lo..hi)
}

/// Calls rand's `IndexedRandom::choose` on a slice of patterns: `None`
/// exactly for an empty slice, else one of its elements. Which one depends
/// on the generator's state.
#[verifier::external_body]
fn choose_pattern<'a>(patterns: &'a [Pattern], rng: &mut StdRng) -> (r: Option<&'a Pattern>)
    ensures
        r is None <==> patterns@.len() == 0,
        r matches Some(p) ==> patterns@.contains(*p),
{
    patterns.choose(rng)
}

/// The ASCII lowercase code of a character.
pub open spec fn ascii_lower_code(c: char) -> int {
    if 'A' <= c <= 'Z' {
        (c as u32) + 32
    } else {
        (c as u32) as int
    }
}

/// Equal ignoring ASCII case (what `str::eq_ignore_ascii_case` tests).
pub open spec fn eq_ignoring_ascii_case(a: Seq<char>, b: Seq<char>) -> bool {
    a.len() == b.len() && forall|i: int| 0 <= i < a.len() ==> ascii_lower_code(#[trigger] a[i]) == ascii_lower_code(b[i])
}

fn lower_code(c: char) -> (r: u32)
    ensures
        r == ascii_lower_code(c),
{
    if 'A' <= c && c <= 'Z' {
        (c as u32) + 32
    } else {
        c as u32
    }
}

/// Whether two strings are equal ignoring ASCII case.
pub fn eq_ignore_ascii_case(a: &str, b: &str) -> (r: bool)
    ensures
        r == eq_ignoring_ascii_case(a@, b@),
{
    let x = chars_of(a);
    let y = chars_of(b);
    if x.len() != y.len() {
        return false;
    }
    let mut i: usize = 0;
    while i < x.len()
        invariant
            i <= x.len(),
            x@ == a@,
            y@ == b@,
            x@.len() == y@.len(),
            forall|j: int| 0 <= j < i ==> ascii_lower_code(#[trigger] x@[j]) == ascii_lower_code(y@[j]),
        decreases x.len() - i,
    {
        if lower_code(x[i]) != lower_code(y[i]) {
            return false;
        }
        i += 1;
    }
    true
}

/// Some name in `names` matches `name` ignoring ASCII case.
pub open spec fn listed(names: Seq<String>, name: Seq<char>) -> bool {
    exists|i: int| 0 <= i < names.len() && eq_ignoring_ascii_case(#[trigger] names[i]@, name)
}

/// A pattern may appear: it is on the whitelist (when there is one) and not
/// on the blacklist (when there is one).
pub open spec fn allowed(p: Pattern, whitelist: Option<Seq<String>>, blacklist: Option<Seq<String>>) -> bool {
    &&& (whitelist matches Some(wl) ==> listed(wl, pattern_name(p)))
    &&& (blacklist matches Some(bl) ==> !listed(bl, pattern_name(p)))
}

/// The allowed patterns among the first `k` of `ps`, in order.
pub open spec fn allowed_patterns(
    ps: Seq<Pattern>,
    whitelist: Option<Seq<String>>,
    blacklist: Option<Seq<String>>,
    k: int,
) -> Seq<Pattern>
    decreases k,
{
    if k <= 0 || k > ps.len() {
        Seq::empty()
    } else {
        let before = allowed_patterns(ps, whitelist, blacklist, k - 1);
        if allowed(ps[k - 1], whitelist, blacklist) {
            before.push(ps[k - 1])
        } else {
            before
        }
    }
}

fn is_listed(names: &Vec<String>, name: &str) -> (r: bool)
    ensures
        r == listed(names@, name@),
{
    let mut i: usize = 0;
    while i < names.len()
        invariant
            i <= names.len(),
            forall|j: int| 0 <= j < i ==> !eq_ignoring_ascii_case(#[trigger] names@[j]@, name@),
        decreases names.len() - i,
    {
        if eq_ignore_ascii_case(names[i].as_str(), name) {
            return true;
        }
        i += 1;
    }
    false
}

/// An optional list of names as a sequence.
pub open spec fn opt_seq(o: Option<Vec<String>>) -> Option<Seq<String>> {
    match o {
        Some(v) => Some(v@),
        None => None,
    }
}

/// The patterns of the catalogue that may appear in a banner, in catalogue
/// order: those on the whitelist (if given) and not on the blacklist (if
/// given), names compared ignoring ASCII case.
pub fn banner_patterns(whitelist: &Option<Vec<String>>, blacklist: &Option<Vec<String>>) -> (r: Vec<Pattern>)
    ensures
        r@ == allowed_patterns(all_patterns(), opt_seq(*whitelist), opt_seq(*blacklist), all_patterns().len() as int),
{
    let all = Pattern::all();
    let ghost wl = opt_seq(*whitelist);
    let ghost bl = opt_seq(*blacklist);
    let mut out: Vec<Pattern> = Vec::new();
    let mut i: usize = 0;
    while i < all.len()
        invariant
            i <= all.len(),
            all@ == all_patterns(),
            wl == opt_seq(*whitelist),
            bl == opt_seq(*blacklist),
            out@ == allowed_patterns(all@, wl, bl, i as int),
        decreases all.len() - i,
    {
        let p = all[i];
        let name = p.name();
        let on_whitelist = match whitelist {
            Some(v) => is_listed(v, name),
            None => true,
        };
        let on_blacklist = match blacklist {
            Some(v) => is_listed(v, name),
            None => false,
        };
        if on_whitelist && !on_blacklist {
            out.push(p);
        }
        i += 1;
    }
    out
}

/// One cell of a banner: its pattern, an index into the color palette, and
/// its angle in degrees.
#[derive(Debug, Clone, Copy, PartialEq, Eq)]
pub struct BannerCell {
    pub pattern: Pattern,
    pub color: usize,
    pub angle: i32,
}

/// The number of colors in the banner palette.
pub open spec fn palette_size() -> nat {
    30
}

/// The palette's colors, in order.
pub open spec fn palette_colors() -> Seq<Seq<char>> {
    seq![
        "#E63946"@, "#F4A261"@, "#2A9D8F"@, "#264653"@, "#E9C46A"@,
        "#8338EC"@, "#FF006E"@, "#3A86FF"@, "#06D6A0"@, "#FB5607"@,
        "#7209B7"@, "#00B4D8"@, "#90BE6D"@, "#F72585"@, "#4361EE"@,
        "#4CC9F0"@, "#FFD166"@, "#EF476F"@, "#118AB2"@, "#073B4C"@,
        "#9B5DE5"@, "#00F5D4"@, "#FEE440"@, "#F15BB5"@, "#00BBF9"@,
        "#9EF01A"@, "#FF595E"@, "#1982C4"@, "#6A4C93"@, "#FFCA3A"@,
    ]
}

/// The banner and swatch color palette.
pub fn palette() -> (r: &'static [&'static str])
    ensures
        r@.len() == palette_size(),
        forall|i: int| 0 <= i < r@.len() ==> #[trigger] r@[i]@ == palette_colors()[i],
{
    let r: &'static [&'static str] = &[
        "#E63946", "#F4A261", "#2A9D8F", "#264653", "#E9C46A",
        "#8338EC", "#FF006E", "#3A86FF", "#06D6A0", "#FB5607",
        "#7209B7", "#00B4D8", "#90BE6D", "#F72585", "#4361EE",
        "#4CC9F0", "#FFD166", "#EF476F", "#118AB2", "#073B4C",
        "#9B5DE5", "#00F5D4", "#FEE440", "#F15BB5", "#00BBF9",
        "#9EF01A", "#FF595E", "#1982C4", "#6A4C93", "#FFCA3A",
    ];
    r
}

/// Draws the cells of a banner: for each, a pattern from `patterns`, a
/// palette color and an angle in `[0, 180)`, drawn in that order from `rng`.
pub fn plan_banner(patterns: &[Pattern], cell_count: usize, rng: &mut StdRng) -> (cells: Vec<BannerCell>)
    requires
        patterns@.len() > 0,
    ensures
        cells@.len() == cell_count,
        forall|i: int| 0 <= i < cells@.len() ==> {
            &&& patterns@.contains(#[trigger] cells@[i].pattern)
            &&& cells@[i].color < palette_size()
            &&& 0 <= cells@[i].angle < 180
        },
{
    let colors = palette();
    let mut cells: Vec<BannerCell> = Vec::new();
    let mut k: usize = 0;
    while k < cell_count
        invariant
            k <= cell_count,
            patterns@.len() > 0,
            colors@.len() == palette_size(),
            cells@.len() == k,
            forall|i: int| 0 <= i < cells@.len() ==> {
                &&& patterns@.contains(#[trigger] cells@[i].pattern)
                &&& cells@[i].color < palette_size()
                &&& 0 <= cells@[i].angle < 180
            },
        decreases cell_count - k,
    {
        let pattern = *choose_pattern(patterns, rng).unwrap();
        let color = random_index(rng, 0, colors.len());
        let angle = random_i32(rng, 0, 180);
        cells.push(BannerCell { pattern, color, angle });
        k += 1;
    }
    cells
}

} // verus!
