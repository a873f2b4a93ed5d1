//! Helpers shared by the command-line tools.

use vstd::prelude::*;
use crate::text::{chars_of, find_from, find_chars, slice_chars, string_of};

verus! {

/// `viewBox="`
pub open spec fn camel_viewbox_key() -> Seq<char> {
    seq!['v', 'i', 'e', 'w', 'B', 'o', 'x', '=', '"']
}

/// `viewbox="`
pub open spec fn lower_viewbox_key() -> Seq<char> {
    seq!['v', 'i', 'e', 'w', 'b', 'o', 'x', '=', '"']
}

/// The text between the first occurrence of `key` in `svg` and the next
/// double quote after it; `None` when `key` does not occur or no quote follows.
pub open spec fn quoted_after(svg: Seq<char>, key: Seq<char>) -> Option<Seq<char>> {
    match find_from(svg, key, 0) {
        Some(start) => match find_from(svg, seq!['"'], start + key.len()) {
            Some(end) => Some(svg.subrange(start + key.len(), end)),
            None => None,
        },
        None => None,
    }
}

/// The viewBox value of an SVG document: the quoted text after the first
/// `viewBox="`, or, failing that, after the first `viewbox="`.
pub open spec fn viewbox_of(svg: Seq<char>) -> Option<Seq<char>> {
    match quoted_after(svg, camel_viewbox_key()) {
        Some(v) => Some(v),
        None => quoted_after(svg, lower_viewbox_key()),
    }
}

pub proof fn lemma_find_from_bounds(s: Seq<char>, p: Seq<char>, i: int)
    ensures
        match find_from(s, p, i) {
            Some(k) => i <= k && 0 <= k && k + p.len() <= s.len() && s.subrange(k, k + p.len()) == p,
            None => true,
        },
    decreases s.len() + 1 - i,
{
    if !(i < 0 || i + p.len() > s.len()) && s.subrange(i, i + p.len()) != p {
        lemma_find_from_bounds(s, p, i + 1);
    }
}

fn quoted_value_after(svg: &[char], key: &[char]) -> (r: Option<Vec<char>>)
    ensures
        match r {
            Some(v) => quoted_after(svg@, key@) == Some(v@),
            None => quoted_after(svg@, key@) is None,
        },
{
    proof {
        lemma_find_from_bounds(svg@, key@, 0);
    }
    match find_chars(svg, key, 0) {
        Some(start) => {
            let quote: Vec<char> = vec!['"'];
            assert(quote@ =~= seq!['"']);
            let n = svg.len();
            assert(start + key@.len() <= n);
            let from = start + key.len();
            proof {
                lemma_find_from_bounds(svg@, quote@, from as int);
            }
            match find_chars(svg, quote.as_slice(), from) {
                Some(end) => Some(slice_chars(svg, from, end)),
                None => None,
            }
        },
        None => None,
    }
}

/// Extracts the viewBox value from SVG content: the quoted text after
/// `viewBox="`, or after `viewbox="` where the first form gives none.
pub fn extract_viewbox(svg: &str) -> (r: Option<String>)
    ensures
        match r {
            Some(v) => viewbox_of(svg@) == Some(v@),
            None => viewbox_of(svg@) is None,
        },
{
    let chars = chars_of(svg);
    let camel: Vec<char> = vec!['v', 'i', 'e', 'w', 'B', 'o', 'x', '=', '"'];
    assert(camel@ =~= camel_viewbox_key());
    if let Some(v) = quoted_value_after(chars.as_slice(), camel.as_slice()) {
        return Some(string_of(v.as_slice()));
    }
    let lower: Vec<char> = vec!['v', 'i', 'e', 'w', 'b', 'o', 'x', '=', '"'];
    assert(lower@ =~= lower_viewbox_key());
    match quoted_value_after(chars.as_slice(), lower.as_slice()) {
        Some(v) => Some(string_of(v.as_slice())),
        None => None,
    }
}

} // verus!
