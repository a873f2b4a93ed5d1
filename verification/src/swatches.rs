//! Text helpers of the swatch sheets.

use vstd::prelude::*;
use crate::text::string_of;

verus! {

/// `n` copies of `c`.
pub open spec fn repeated(c: char, n: nat) -> Seq<char> {
    Seq::new(n, |_i: int| c)
}

/// A rating out of five as filled and empty stars, e.g. `★★★☆☆` for 3.
pub open spec fn stars(rating: nat) -> Seq<char>
    recommends
        rating <= 5,
{
    repeated('★', rating) + repeated('☆', (5 - rating) as nat)
}

/// Renders a star rating (0 to 5) as five stars, the first `rating` filled.
pub fn render_stars(rating: u8) -> (r: String)
    requires
        rating <= 5,
    ensures
        r@ == stars(rating as nat),
{
    let mut v: Vec<char> = Vec::new();
    let mut i: u8 = 0;
    while i < 5
        invariant
            i <= 5,
            rating <= 5,
            v@ == stars(rating as nat).take(i as int),
        decreases 5 - i,
    {
        if i < rating {
            v.push('★');
        } else {
            v.push('☆');
        }
        assert(stars(rating as nat).take(i + 1) =~= stars(rating as nat).take(i as int).push(
            stars(rating as nat)[i as int],
        ));
        i += 1;
    }
    assert(stars(rating as nat).take(5) =~= stars(rating as nat));
    string_of(v.as_slice())
}

} // verus!
