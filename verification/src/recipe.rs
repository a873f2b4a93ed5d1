//! Defaults of the layered pattern recipe format.

use vstd::prelude::*;

verus! {

/// The canvas background used when a recipe names none.
pub open spec fn default_background_color() -> Seq<char> {
    seq!['w', 'h', 'i', 't', 'e']
}

/// The default canvas background: `white`.
pub fn default_background() -> (r: String)
    ensures
        r@ == default_background_color(),
{
    let r = "white".to_owned();
    proof {
        reveal_strlit("white");
    }
    assert(r@ =~= default_background_color());
    r
}

/// A layer is enabled unless the recipe says otherwise.
pub fn default_enabled() -> (r: bool)
    ensures
        r,
{
    true
}

} // verus!
