//! Color normalization and the ordering of color usage tables.

use vstd::prelude::*;
use super::types::ColorInfo;
use crate::text::{chars_of, string_of, trim_bounds, trim, slice_chars, starts_with, to_lowercase, unicode_lowercase, is_ascii_text, ascii_lowercase};

verus! {

broadcast use vstd::seq_lib::group_seq_properties, vstd::multiset::group_multiset_axioms;

/// The normalized form of a color value: `url(...)` references collapse to
/// "url-reference"; anything else is trimmed and lowercased.
pub open spec fn normalized_color(color: Seq<char>) -> Seq<char> {
    let t = trim(color);
    if starts_with(t, seq!['u', 'r', 'l', '(']) {
        "url-reference"@
    } else {
        unicode_lowercase(t)
    }
}

/// Normalize color value (lowercase, trim whitespace).
pub fn normalize_color(color: &str) -> (r: String)
    ensures
        r@ == normalized_color(color@),
        is_ascii_text(color@) && !starts_with(trim(color@), seq!['u', 'r', 'l', '('])
            ==> r@ == ascii_lowercase(trim(color@)),
{
    let chars = chars_of(color);
    let (a, b) = trim_bounds(chars.as_slice());
    let t = slice_chars(chars.as_slice(), a, b);
    if t.len() >= 4 && t[0] == 'u' && t[1] == 'r' && t[2] == 'l' && t[3] == '(' {
        assert(t@.take(4) =~= seq!['u', 'r', 'l', '(']);
        return "url-reference".to_string();
    }
    assert(!starts_with(t@, seq!['u', 'r', 'l', '('])) by {
        if t@.len() >= 4 {
            assert(t@.take(4)[0] == t@[0]);
            assert(t@.take(4)[1] == t@[1]);
            assert(t@.take(4)[2] == t@[2]);
            assert(t@.take(4)[3] == t@[3]);
        }
    }
    let ts = string_of(t.as_slice());
    to_lowercase(ts.as_str())
}


/// Lexicographic order on character sequences by code point (the order of
/// `String`'s `Ord`, since UTF-8 preserves code point order).
pub open spec fn lex_lt(a: Seq<char>, b: Seq<char>) -> bool
    decreases a.len(),
{
    if a.len() == 0 {
        b.len() > 0
    } else if b.len() == 0 {
        false
    } else if a[0] < b[0] {
        true
    } else if a[0] > b[0] {
        false
    } else {
        lex_lt(a.drop_first(), b.drop_first())
    }
}

/// A color entry as plain values: the color and its count.
pub open spec fn color_view(c: ColorInfo) -> (Seq<char>, usize) {
    (c.color@, c.count)
}

/// The views of a color table.
pub open spec fn color_views(s: Seq<ColorInfo>) -> Seq<(Seq<char>, usize)> {
    s.map_values(|c: ColorInfo| color_view(c))
}

/// `a` comes before `b`: a higher count first, equal counts by color name.
pub open spec fn ranks_before(a: (Seq<char>, usize), b: (Seq<char>, usize)) -> bool {
    a.1 > b.1 || (a.1 == b.1 && lex_lt(a.0, b.0))
}

/// No entry comes before an entry that precedes it.
pub open spec fn is_ranked(s: Seq<(Seq<char>, usize)>) -> bool {
    forall|i: int, j: int| 0 <= i < j < s.len() ==> !ranks_before(#[trigger] s[j], #[trigger] s[i])
}

proof fn lemma_lex_lt_irreflexive(a: Seq<char>)
    ensures
        !lex_lt(a, a),
    decreases a.len(),
{
    if a.len() > 0 {
        lemma_lex_lt_irreflexive(a.drop_first());
    }
}

proof fn lemma_lex_lt_asymmetric(a: Seq<char>, b: Seq<char>)
    ensures
        lex_lt(a, b) ==> !lex_lt(b, a),
    decreases a.len(),
{
    if a.len() > 0 && b.len() > 0 {
        lemma_lex_lt_asymmetric(a.drop_first(), b.drop_first());
    }
}

proof fn lemma_lex_lt_transitive(a: Seq<char>, b: Seq<char>, c: Seq<char>)
    requires
        lex_lt(a, b),
        lex_lt(b, c),
    ensures
        lex_lt(a, c),
    decreases a.len(),
{
    if a.len() > 0 && b.len() > 0 && c.len() > 0 {
        if a[0] == b[0] && b[0] == c[0] {
            lemma_lex_lt_transitive(a.drop_first(), b.drop_first(), c.drop_first());
        }
    }
}

proof fn lemma_lex_lt_total(a: Seq<char>, b: Seq<char>)
    requires
        a != b,
    ensures
        lex_lt(a, b) || lex_lt(b, a),
    decreases a.len(),
{
    if a.len() > 0 && b.len() > 0 && a[0] == b[0] {
        if a.drop_first() == b.drop_first() {
            assert(a =~= seq![a[0]] + a.drop_first());
            assert(b =~= seq![b[0]] + b.drop_first());
        }
        lemma_lex_lt_total(a.drop_first(), b.drop_first());
    } else if a.len() == 0 && b.len() == 0 {
        assert(a =~= b);
    }
}

/// The order in which color tables are listed is a strict total order on entries.
pub proof fn ranking_is_strict_total_order(
    a: (Seq<char>, usize),
    b: (Seq<char>, usize),
    c: (Seq<char>, usize),
)
    ensures
        !ranks_before(a, a),
        ranks_before(a, b) ==> !ranks_before(b, a),
        ranks_before(a, b) && ranks_before(b, c) ==> ranks_before(a, c),
        a != b ==> ranks_before(a, b) || ranks_before(b, a),
{
    lemma_lex_lt_irreflexive(a.0);
    lemma_lex_lt_asymmetric(a.0, b.0);
    if ranks_before(a, b) && ranks_before(b, c) && a.1 == b.1 && b.1 == c.1 {
        lemma_lex_lt_transitive(a.0, b.0, c.0);
    }
    if a != b && a.1 == b.1 {
        lemma_lex_lt_total(a.0, b.0);
    }
}

/// A ranked listing is determined by its entries: two ranked lists with
/// the same entries are the same list, so a table is listed the same way
/// whatever order its entries were gathered in.
pub proof fn ranked_listing_is_unique(a: Seq<(Seq<char>, usize)>, b: Seq<(Seq<char>, usize)>)
    requires
        is_ranked(a),
        is_ranked(b),
        a.to_multiset() == b.to_multiset(),
    ensures
        a == b,
    decreases a.len(),
{
    broadcast use vstd::seq_lib::to_multiset_contains, vstd::seq_lib::to_multiset_remove, vstd::seq_lib::to_multiset_len;

    if a.len() == 0 {
        assert(b.to_multiset().len() == 0);
        assert(b =~= a);
    } else {
        assert(a.to_multiset().len() == a.len());
        assert(b.to_multiset().len() == b.len());
        assert(b.len() == a.len());
        let x = a[0];
        let y = b[0];
        assert(a.contains(x));
        assert(b.to_multiset().count(x) > 0);
        let j = choose|j: int| 0 <= j < b.len() && b[j] == x;
        assert(b.contains(y));
        assert(a.to_multiset().count(y) > 0);
        let i = choose|i: int| 0 <= i < a.len() && a[i] == y;
        if j > 0 {
            assert(!ranks_before(b[j], b[0]));
        }
        if i > 0 {
            assert(!ranks_before(a[i], a[0]));
        }
        ranking_is_strict_total_order(x, y, y);
        assert(x == y);
        let a1 = a.remove(0);
        let b1 = b.remove(0);
        assert(a1.to_multiset() == a.to_multiset().remove(x));
        assert(b1.to_multiset() == b.to_multiset().remove(y));
        assert forall|p: int, q: int| 0 <= p < q < a1.len() implies !ranks_before(#[trigger] a1[q], #[trigger] a1[p]) by {
            assert(a1[q] == a[q + 1] && a1[p] == a[p + 1]);
        }
        assert forall|p: int, q: int| 0 <= p < q < b1.len() implies !ranks_before(#[trigger] b1[q], #[trigger] b1[p]) by {
            assert(b1[q] == b[q + 1] && b1[p] == b[p + 1]);
        }
        ranked_listing_is_unique(a1, b1);
        assert(a =~= b);
    }
}

fn lex_less(a: &[char], b: &[char]) -> (r: bool)
    ensures
        r == lex_lt(a@, b@),
{
    let mut i: usize = 0;
    while i < a.len() && i < b.len() && a[i] == b[i]
        invariant
            i <= a.len(),
            i <= b.len(),
            lex_lt(a@, b@) == lex_lt(a@.skip(i as int), b@.skip(i as int)),
        decreases a.len() - i,
    {
        assert(a@.skip(i as int).drop_first() =~= a@.skip(i + 1));
        assert(b@.skip(i as int).drop_first() =~= b@.skip(i + 1));
        i += 1;
    }
    if i == a.len() {
        i < b.len()
    } else if i == b.len() {
        false
    } else {
        a[i] < b[i]
    }
}

fn ranks_before_exec(a: &ColorInfo, ac: &[char], b: &ColorInfo, bc: &[char]) -> (r: bool)
    requires
        ac@ == a.color@,
        bc@ == b.color@,
    ensures
        r == ranks_before(color_view(*a), color_view(*b)),
{
    a.count > b.count || (a.count == b.count && lex_less(ac, bc))
}

proof fn lemma_insert_multiset<A>(s: Seq<A>, p: int, x: A)
    requires
        0 <= p <= s.len(),
    ensures
        s.insert(p, x).to_multiset() == s.to_multiset().insert(x),
{
    let t = s.insert(p, x);
    assert(t.remove(p) =~= s);
    assert(t[p] == x);
    t.to_multiset_ensures();
    assert(t.to_multiset().count(x) >= 1);
    assert(t.to_multiset() =~= t.to_multiset().remove(x).insert(x));
}

/// Sort a color table by count (descending), then by color name.
///
/// The result holds the same entries as the input, ranked: a table built from
/// a map of colors to counts is listed the same way whatever order the map
/// was walked in.
pub fn colors_to_sorted_vec(colors: &[ColorInfo]) -> (r: Vec<ColorInfo>)
    ensures
        color_views(r@).to_multiset() == color_views(colors@).to_multiset(),
        is_ranked(color_views(r@)),
{
    let mut out: Vec<ColorInfo> = Vec::new();
    let mut keys: Vec<Vec<char>> = Vec::new();
    let mut i: usize = 0;
    while i < colors.len()
        invariant
            i <= colors.len(),
            keys@.len() == out@.len(),
            forall|k: int| 0 <= k < keys@.len() ==> #[trigger] keys@[k]@ == out@[k].color@,
            color_views(out@).to_multiset() == color_views(colors@.take(i as int)).to_multiset(),
            is_ranked(color_views(out@)),
        decreases colors.len() - i,
    {
        let c = &colors[i];
        let key = chars_of(c.color.as_str());
        let item = ColorInfo { color: c.color.clone(), count: c.count };
        let ghost x = color_view(item);
        let ghost before = color_views(out@);
        let mut p: usize = 0;
        while p < out.len()
            invariant_except_break
                p <= out@.len(),
                forall|k: int| 0 <= k < p ==> !ranks_before(x, #[trigger] before[k]),
            invariant
                keys@.len() == out@.len(),
                forall|k: int| 0 <= k < keys@.len() ==> #[trigger] keys@[k]@ == out@[k].color@,
                key@ == item.color@,
                x == color_view(item),
                before == color_views(out@),
            ensures
                p <= out@.len(),
                forall|k: int| 0 <= k < p ==> !ranks_before(x, #[trigger] before[k]),
                p < out@.len() ==> ranks_before(x, before[p as int]),
            decreases out@.len() - p,
        {
            let ahead = ranks_before_exec(&item, key.as_slice(), &out[p], keys[p].as_slice());
            assert(before[p as int] == color_view(out@[p as int]));
            if ahead {
                break;
            }
            p += 1;
        }
        proof {
            assert forall|k: int| p <= k < before.len() implies !ranks_before(#[trigger] before[k], x) by {
                ranking_is_strict_total_order(x, before[p as int], before[k]);
                ranking_is_strict_total_order(before[k], x, before[p as int]);
                if k > p {
                    assert(!ranks_before(before[k], before[p as int]));
                }
            }
        }
        let ghost old_keys = keys@;
        let ghost old_out = out@;
        out.insert(p, item);
        keys.insert(p, key);
        proof {
            let now = color_views(out@);
            assert(now =~= before.insert(p as int, x));
            lemma_insert_multiset(before, p as int, x);
            assert(colors@.take(i + 1) =~= colors@.take(i as int).push(colors@[i as int]));
            assert(color_views(colors@.take(i + 1)) =~= color_views(colors@.take(i as int)).push(x));
            color_views(colors@.take(i as int)).to_multiset_ensures();
            assert forall|u: int, v: int| 0 <= u < v < now.len() implies !ranks_before(
                #[trigger] now[v],
                #[trigger] now[u],
            ) by {
                if u < p && v < p {
                    assert(now[u] == before[u] && now[v] == before[v]);
                } else if u < p && v == p {
                } else if u < p && v > p {
                    assert(now[u] == before[u] && now[v] == before[v - 1]);
                } else if u == p {
                    assert(now[v] == before[v - 1]);
                } else {
                    assert(now[u] == before[u - 1] && now[v] == before[v - 1]);
                }
            }
            assert forall|k: int| 0 <= k < keys@.len() implies #[trigger] keys@[k]@ == out@[k].color@ by {
                if k < p {
                    assert(keys@[k] == old_keys[k] && out@[k] == old_out[k]);
                } else if k > p {
                    assert(keys@[k] == old_keys[k - 1] && out@[k] == old_out[k - 1]);
                }
            }
        }
        i += 1;
    }
    assert(colors@.take(colors.len() as int) =~= colors@);
    out
}

} // verus!
