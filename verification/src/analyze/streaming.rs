//! Streaming SVG analysis: element counts, layers and colors gathered one
//! XML event at a time, without building a tree.

use vstd::prelude::*;
use super::xml::{attribute_scan, name_leads, slot_views, tag_attributes, tag_view, tag_views, xml_scan, xml_tags, TagView, XmlTag};
use super::types::{ColorInfo, ElementCounts, GroupElementCounts, GroupInfo, SvgSummary};
use super::colors::{colors_to_sorted_vec, is_ranked, ranked_listing_is_unique};
use super::size::{file_size_text, format_file_size};
use super::viewbox::{is_valid_viewbox, parse_viewbox, viewbox_fields, viewbox_texts, ViewBox};
use super::colors::{color_view, color_views, normalize_color, normalized_color};
use crate::text::{push_str, chars_of, lemma_split_on_len, slice_chars, split_chars, split_on, starts_with, starts_with_at, str_eq, string_of, trim, trim_chars, views};

verus! {

broadcast use vstd::seq_lib::group_seq_properties;

/// A color usage table as a map from color to count.
pub open spec fn color_table(v: Seq<ColorInfo>) -> Map<Seq<char>, nat>
    decreases v.len(),
{
    if v.len() == 0 {
        Map::empty()
    } else {
        color_table(v.drop_last()).insert(v.last().color@, v.last().count as nat)
    }
}

/// No color is listed twice.
pub open spec fn distinct_colors(v: Seq<ColorInfo>) -> bool {
    forall|i: int, j: int| 0 <= i < j < v.len() ==> #[trigger] v[i].color@ != #[trigger] v[j].color@
}

/// One more use of color `c`.
pub open spec fn bump(m: Map<Seq<char>, nat>, c: Seq<char>) -> Map<Seq<char>, nat> {
    m.insert(c, if m.contains_key(c) { m[c] + 1 } else { 1 })
}

/// Every count of the table is at most `b`.
pub open spec fn counts_at_most(v: Seq<ColorInfo>, b: nat) -> bool {
    forall|i: int| 0 <= i < v.len() ==> #[trigger] v[i].count <= b
}

proof fn lemma_color_table(v: Seq<ColorInfo>)
    requires
        distinct_colors(v),
    ensures
        forall|i: int| 0 <= i < v.len() ==> #[trigger] color_table(v).contains_key(v[i].color@)
            && color_table(v)[v[i].color@] == v[i].count,
        forall|c: Seq<char>| #[trigger] color_table(v).contains_key(c) ==> exists|i: int|
            0 <= i < v.len() && v[i].color@ == c,
    decreases v.len(),
{
    if v.len() > 0 {
        let init = v.drop_last();
        assert(distinct_colors(init));
        lemma_color_table(init);
        assert forall|i: int| 0 <= i < v.len() implies #[trigger] color_table(v).contains_key(v[i].color@)
            && color_table(v)[v[i].color@] == v[i].count by {
            if i < v.len() - 1 {
                assert(init[i] == v[i]);
                assert(v[i].color@ != v[v.len() - 1].color@);
                assert(color_table(init).contains_key(init[i].color@));
            }
        }
        assert forall|c: Seq<char>| #[trigger] color_table(v).contains_key(c) implies exists|i: int|
            0 <= i < v.len() && v[i].color@ == c by {
            if c != v.last().color@ {
                assert(color_table(init).contains_key(c));
                let i = choose|i: int| 0 <= i < init.len() && init[i].color@ == c;
                assert(v[i].color@ == c);
            } else {
                assert(v[v.len() - 1].color@ == c);
            }
        }
    }
}

proof fn lemma_color_table_update(v: Seq<ColorInfo>, k: int, x: ColorInfo)
    requires
        distinct_colors(v),
        0 <= k < v.len(),
        x.color@ == v[k].color@,
    ensures
        color_table(v.update(k, x)) == color_table(v).insert(x.color@, x.count as nat),
    decreases v.len(),
{
    let w = v.update(k, x);
    if k == v.len() - 1 {
        assert(w.drop_last() =~= v.drop_last());
        assert(color_table(v).insert(x.color@, x.count as nat) =~= color_table(v.drop_last()).insert(
            x.color@,
            x.count as nat,
        ));
    } else {
        let init = v.drop_last();
        assert(distinct_colors(init));
        lemma_color_table_update(init, k, x);
        assert(w.drop_last() =~= init.update(k, x));
        assert(w.last() == v.last());
        assert(v.last().color@ != x.color@);
        assert(color_table(w) =~= color_table(v).insert(x.color@, x.count as nat));
    }
}

/// Counts one more use of `color` in `table`.
fn bump_color(table: &mut Vec<ColorInfo>, color: String, Ghost(b): Ghost<nat>)
    requires
        distinct_colors(old(table)@),
        counts_at_most(old(table)@, b),
        b < usize::MAX,
    ensures
        distinct_colors(final(table)@),
        color_table(final(table)@) == bump(color_table(old(table)@), color@),
        counts_at_most(final(table)@, b + 1),
{
    let mut i: usize = 0;
    while i < table.len()
        invariant
            i <= table.len(),
            table@ == old(table)@,
            distinct_colors(table@),
            counts_at_most(table@, b),
            b < usize::MAX,
            forall|j: int| 0 <= j < i ==> #[trigger] table@[j].color@ != color@,
        decreases table.len() - i,
    {
        if table[i].color == color {
            let n = table[i].count;
            let entry = ColorInfo { color: table[i].color.clone(), count: n + 1 };
            proof {
                lemma_color_table(table@);
                assert(color_table(table@).contains_key(table@[i as int].color@));
                lemma_color_table_update(table@, i as int, entry);
            }
            table.set(i, entry);
            assert(color_table(table@) =~= bump(color_table(old(table)@), color@));
            return;
        }
        i += 1;
    }
    proof {
        lemma_color_table(table@);
        if color_table(table@).contains_key(color@) {
            let j = choose|j: int| 0 <= j < table@.len() && table@[j].color@ == color@;
            assert(table@[j].color@ != color@);
        }
    }
    let entry = ColorInfo { color, count: 1 };
    table.push(entry);
    assert(table@.drop_last() =~= old(table)@);
    assert(color_table(table@) =~= bump(color_table(old(table)@), color@));
}

/// An attribute list as plain values: names and values.
pub open spec fn attr_views(a: Seq<(String, String)>) -> Seq<(Seq<char>, Seq<char>)> {
    a.map_values(|p: (String, String)| (p.0@, p.1@))
}

/// A color value that is counted: neither empty nor `none`.
pub open spec fn is_counted_color(v: Seq<char>) -> bool {
    v.len() > 0 && v != seq!['n', 'o', 'n', 'e']
}

/// The color named by one `;`-separated part of a style attribute:
/// `fill:<color>` (true) or `stroke:<color>` (false), if it counts.
pub open spec fn style_part_color(part: Seq<char>) -> Option<(bool, Seq<char>)> {
    let t = trim(part);
    if starts_with(t, seq!['f', 'i', 'l', 'l', ':']) {
        let v = trim(t.skip(5));
        if is_counted_color(v) { Some((true, normalized_color(v))) } else { None }
    } else if starts_with(t, seq!['s', 't', 'r', 'o', 'k', 'e', ':']) {
        let v = trim(t.skip(7));
        if is_counted_color(v) { Some((false, normalized_color(v))) } else { None }
    } else {
        None
    }
}

/// The colors named by the parts of a style attribute, in order.
pub open spec fn part_colors(parts: Seq<Seq<char>>) -> Seq<(bool, Seq<char>)>
    decreases parts.len(),
{
    if parts.len() == 0 {
        Seq::empty()
    } else {
        let init = part_colors(parts.drop_last());
        match style_part_color(parts.last()) {
            Some(e) => init.push(e),
            None => init,
        }
    }
}

/// The fill (true) and stroke (false) colors that a style attribute names.
pub open spec fn style_colors(style: Seq<char>) -> Seq<(bool, Seq<char>)> {
    part_colors(split_on(style, ';'))
}

/// The colors that one attribute names: a `fill` or `stroke` value that
/// counts, or the colors of a `style` value.
pub open spec fn attribute_color(key: Seq<char>, value: Seq<char>) -> Seq<(bool, Seq<char>)> {
    if key == seq!['f', 'i', 'l', 'l'] {
        if is_counted_color(value) { seq![(true, normalized_color(value))] } else { Seq::empty() }
    } else if key == seq!['s', 't', 'r', 'o', 'k', 'e'] {
        if is_counted_color(value) { seq![(false, normalized_color(value))] } else { Seq::empty() }
    } else if key == seq!['s', 't', 'y', 'l', 'e'] {
        style_colors(value)
    } else {
        Seq::empty()
    }
}

/// The colors that an element's attributes name, in order.
pub open spec fn attribute_colors(attrs: Seq<(Seq<char>, Seq<char>)>) -> Seq<(bool, Seq<char>)>
    decreases attrs.len(),
{
    if attrs.len() == 0 {
        Seq::empty()
    } else {
        attribute_colors(attrs.drop_last()) + attribute_color(attrs.last().0, attrs.last().1)
    }
}

/// The fill (`fill` true) or stroke table after counting `events`.
pub open spec fn tally(m: Map<Seq<char>, nat>, events: Seq<(bool, Seq<char>)>, fill: bool) -> Map<
    Seq<char>,
    nat,
>
    decreases events.len(),
{
    if events.len() == 0 {
        m
    } else {
        let before = tally(m, events.drop_last(), fill);
        if events.last().0 == fill {
            bump(before, events.last().1)
        } else {
            before
        }
    }
}

/// How many of `events` name color `c` in the fill (`fill` true) or stroke table.
pub open spec fn uses_of(events: Seq<(bool, Seq<char>)>, fill: bool, c: Seq<char>) -> nat
    decreases events.len(),
{
    if events.len() == 0 {
        0
    } else {
        uses_of(events.drop_last(), fill, c) + if events.last() == (fill, c) { 1nat } else { 0nat }
    }
}

/// A table's count of a color (0 when it is not listed).
pub open spec fn count_of(m: Map<Seq<char>, nat>, c: Seq<char>) -> nat {
    if m.contains_key(c) {
        m[c]
    } else {
        0
    }
}

/// Counting colors adds, for each color, the number of times it is named
/// for that table, and lists exactly the colors it already had or that are
/// named.
pub proof fn tally_counts_uses(m: Map<Seq<char>, nat>, events: Seq<(bool, Seq<char>)>, fill: bool, c: Seq<char>)
    ensures
        count_of(tally(m, events, fill), c) == count_of(m, c) + uses_of(events, fill, c),
        tally(m, events, fill).contains_key(c) <==> (m.contains_key(c) || uses_of(events, fill, c) > 0),
    decreases events.len(),
{
    if events.len() > 0 {
        tally_counts_uses(m, events.drop_last(), fill, c);
    }
}

/// A measure of an attribute list that bounds the colors it can name: one
/// per attribute plus the length of each value.
pub open spec fn attr_weight(attrs: Seq<(Seq<char>, Seq<char>)>) -> nat
    decreases attrs.len(),
{
    if attrs.len() == 0 {
        0
    } else {
        attr_weight(attrs.drop_last()) + attrs.last().1.len() + 1
    }
}

proof fn lemma_tally_append(m: Map<Seq<char>, nat>, a: Seq<(bool, Seq<char>)>, b: Seq<(bool, Seq<char>)>, fill: bool)
    ensures
        tally(m, a + b, fill) == tally(tally(m, a, fill), b, fill),
    decreases b.len(),
{
    if b.len() == 0 {
        assert(a + b =~= a);
    } else {
        assert((a + b).drop_last() =~= a + b.drop_last());
        lemma_tally_append(m, a, b.drop_last(), fill);
    }
}

proof fn lemma_part_colors_len(parts: Seq<Seq<char>>)
    ensures
        part_colors(parts).len() <= parts.len(),
    decreases parts.len(),
{
    if parts.len() > 0 {
        lemma_part_colors_len(parts.drop_last());
    }
}

proof fn lemma_attribute_colors_len(attrs: Seq<(Seq<char>, Seq<char>)>)
    ensures
        attribute_colors(attrs).len() <= attr_weight(attrs),
    decreases attrs.len(),
{
    if attrs.len() > 0 {
        lemma_attribute_colors_len(attrs.drop_last());
        lemma_split_on_len(attrs.last().1, ';');
        lemma_part_colors_len(split_on(attrs.last().1, ';'));
    }
}

/// Counts one use of `color` in the fill table (`is_fill`) or the stroke table.
fn count_color(
    fill: &mut Vec<ColorInfo>,
    stroke: &mut Vec<ColorInfo>,
    is_fill: bool,
    color: String,
    Ghost(b): Ghost<nat>,
)
    requires
        distinct_colors(old(fill)@),
        distinct_colors(old(stroke)@),
        counts_at_most(old(fill)@, b),
        counts_at_most(old(stroke)@, b),
        b < usize::MAX,
    ensures
        distinct_colors(final(fill)@),
        distinct_colors(final(stroke)@),
        color_table(final(fill)@) == tally(color_table(old(fill)@), seq![(is_fill, color@)], true),
        color_table(final(stroke)@) == tally(color_table(old(stroke)@), seq![(is_fill, color@)], false),
        counts_at_most(final(fill)@, b + 1),
        counts_at_most(final(stroke)@, b + 1),
{
    let ghost ev = seq![(is_fill, color@)];
    assert(ev.drop_last() =~= Seq::<(bool, Seq<char>)>::empty());
    assert(tally(color_table(fill@), ev.drop_last(), true) == color_table(fill@));
    assert(tally(color_table(stroke@), ev.drop_last(), false) == color_table(stroke@));
    if is_fill {
        bump_color(fill, color, Ghost(b));
    } else {
        bump_color(stroke, color, Ghost(b));
    }
}

/// Whether `v` is a counted color (see `is_counted_color`).
fn counted_color(v: &[char]) -> (r: bool)
    ensures
        r == is_counted_color(v@),
{
    if v.len() == 0 {
        return false;
    }
    let is_none = v.len() == 4 && v[0] == 'n' && v[1] == 'o' && v[2] == 'n' && v[3] == 'e';
    assert(is_none ==> v@ =~= seq!['n', 'o', 'n', 'e']);
    !is_none
}

/// The color of one style part (see `style_part_color`).
fn style_part(part: &[char]) -> (r: Option<(bool, String)>)
    ensures
        match r {
            Some((f, c)) => style_part_color(part@) == Some((f, c@)),
            None => style_part_color(part@) is None,
        },
{
    let t = trim_chars(part);
    let fill_key: Vec<char> = vec!['f', 'i', 'l', 'l', ':'];
    let stroke_key: Vec<char> = vec!['s', 't', 'r', 'o', 'k', 'e', ':'];
    assert(fill_key@ =~= seq!['f', 'i', 'l', 'l', ':']);
    assert(stroke_key@ =~= seq!['s', 't', 'r', 'o', 'k', 'e', ':']);
    assert(t@.skip(0) =~= t@);
    let (is_fill, skip): (bool, usize) = if starts_with_at(t.as_slice(), 0, fill_key.as_slice()) {
        (true, 5)
    } else if starts_with_at(t.as_slice(), 0, stroke_key.as_slice()) {
        (false, 7)
    } else {
        return None;
    };
    let rest = slice_chars(t.as_slice(), skip, t.len());
    assert(rest@ =~= t@.skip(skip as int));
    let v = trim_chars(rest.as_slice());
    if !counted_color(v.as_slice()) {
        return None;
    }
    let vs = string_of(v.as_slice());
    Some((is_fill, normalize_color(vs.as_str())))
}

/// Counts the fill and stroke colors of an inline CSS style attribute.
fn parse_style_attr(
    fill: &mut Vec<ColorInfo>,
    stroke: &mut Vec<ColorInfo>,
    style: &str,
    Ghost(b): Ghost<nat>,
)
    requires
        distinct_colors(old(fill)@),
        distinct_colors(old(stroke)@),
        counts_at_most(old(fill)@, b),
        counts_at_most(old(stroke)@, b),
        b + style@.len() + 1 <= usize::MAX,
    ensures
        distinct_colors(final(fill)@),
        distinct_colors(final(stroke)@),
        color_table(final(fill)@) == tally(color_table(old(fill)@), style_colors(style@), true),
        color_table(final(stroke)@) == tally(color_table(old(stroke)@), style_colors(style@), false),
        counts_at_most(final(fill)@, b + style_colors(style@).len()),
        counts_at_most(final(stroke)@, b + style_colors(style@).len()),
{
    let chars = chars_of(style);
    let parts = split_chars(chars.as_slice(), ';');
    proof {
        lemma_split_on_len(style@, ';');
    }
    let mut j: usize = 0;
    while j < parts.len()
        invariant
            j <= parts.len(),
            views(parts@) == split_on(style@, ';'),
            parts.len() <= style@.len() + 1,
            b + style@.len() + 1 <= usize::MAX,
            distinct_colors(fill@),
            distinct_colors(stroke@),
            part_colors(views(parts@).take(j as int)).len() <= j,
            color_table(fill@) == tally(color_table(old(fill)@), part_colors(views(parts@).take(j as int)), true),
            color_table(stroke@) == tally(color_table(old(stroke)@), part_colors(views(parts@).take(j as int)), false),
            counts_at_most(fill@, b + part_colors(views(parts@).take(j as int)).len()),
            counts_at_most(stroke@, b + part_colors(views(parts@).take(j as int)).len()),
        decreases parts.len() - j,
    {
        let ghost before = part_colors(views(parts@).take(j as int));
        assert(views(parts@).take(j + 1).drop_last() =~= views(parts@).take(j as int));
        assert(views(parts@).take(j + 1).last() == parts@[j as int]@);
        match style_part(parts[j].as_slice()) {
            Some((is_fill, color)) => {
                let ghost e = (is_fill, color@);
                proof {
                    lemma_tally_append(color_table(old(fill)@), before, seq![e], true);
                    lemma_tally_append(color_table(old(stroke)@), before, seq![e], false);
                    assert(before + seq![e] =~= before.push(e));
                }
                count_color(fill, stroke, is_fill, color, Ghost(b + before.len()));
            },
            None => {},
        }
        j += 1;
    }
    assert(views(parts@).take(parts.len() as int) =~= views(parts@));
}

proof fn lemma_attr_weight_prefix(a: Seq<(Seq<char>, Seq<char>)>, i: int)
    requires
        0 <= i <= a.len(),
    ensures
        attr_weight(a.take(i)) <= attr_weight(a),
    decreases a.len() - i,
{
    if i == a.len() {
        assert(a.take(i) =~= a);
    } else {
        assert(a.take(i + 1).drop_last() =~= a.take(i));
        lemma_attr_weight_prefix(a, i + 1);
    }
}

/// Counts the colors that an element's attributes name (see
/// `attribute_colors`) in the fill and stroke tables.
fn add_attribute_colors(
    fill: &mut Vec<ColorInfo>,
    stroke: &mut Vec<ColorInfo>,
    attributes: &[(String, String)],
    Ghost(b): Ghost<nat>,
)
    requires
        distinct_colors(old(fill)@),
        distinct_colors(old(stroke)@),
        counts_at_most(old(fill)@, b),
        counts_at_most(old(stroke)@, b),
        b + attr_weight(attr_views(attributes@)) <= usize::MAX,
    ensures
        distinct_colors(final(fill)@),
        distinct_colors(final(stroke)@),
        color_table(final(fill)@) == tally(color_table(old(fill)@), attribute_colors(attr_views(attributes@)), true),
        color_table(final(stroke)@) == tally(color_table(old(stroke)@), attribute_colors(attr_views(attributes@)), false),
        counts_at_most(final(fill)@, b + attr_weight(attr_views(attributes@))),
        counts_at_most(final(stroke)@, b + attr_weight(attr_views(attributes@))),
{
    let ghost a = attr_views(attributes@);
    assert(a.take(0) =~= Seq::<(Seq<char>, Seq<char>)>::empty());
    let mut i: usize = 0;
    while i < attributes.len()
        invariant
            i <= attributes.len(),
            a == attr_views(attributes@),
            b + attr_weight(a) <= usize::MAX,
            distinct_colors(fill@),
            distinct_colors(stroke@),
            color_table(fill@) == tally(color_table(old(fill)@), attribute_colors(a.take(i as int)), true),
            color_table(stroke@) == tally(color_table(old(stroke)@), attribute_colors(a.take(i as int)), false),
            counts_at_most(fill@, b + attribute_colors(a.take(i as int)).len()),
            counts_at_most(stroke@, b + attribute_colors(a.take(i as int)).len()),
        decreases attributes.len() - i,
    {
        let ghost before = attribute_colors(a.take(i as int));
        proof {
            reveal_strlit("fill");
            reveal_strlit("stroke");
            reveal_strlit("style");
            assert("fill"@ =~= seq!['f', 'i', 'l', 'l']);
            assert("stroke"@ =~= seq!['s', 't', 'r', 'o', 'k', 'e']);
            assert("style"@ =~= seq!['s', 't', 'y', 'l', 'e']);
            assert(a.take(i + 1).drop_last() =~= a.take(i as int));
            assert(a.take(i + 1).last() == (attributes@[i as int].0@, attributes@[i as int].1@));
            lemma_attribute_colors_len(a.take(i as int));
            lemma_attr_weight_prefix(a, i + 1);
            assert(attr_weight(a.take(i + 1)) == attr_weight(a.take(i as int)) + attributes@[i as int].1@.len() + 1);
            assert(attribute_colors(a.take(i + 1)) == before + attribute_color(attributes@[i as int].0@, attributes@[i as int].1@));
        }
        let key = attributes[i].0.as_str();
        let value = attributes[i].1.as_str();
        let is_fill = str_eq(key, "fill");
        if is_fill || str_eq(key, "stroke") {
            let v = chars_of(value);
            if counted_color(v.as_slice()) {
                let color = normalize_color(value);
                let ghost e = (is_fill, color@);
                proof {
                    assert(attribute_color(key@, value@) == seq![e]);
                    lemma_tally_append(color_table(old(fill)@), before, seq![e], true);
                    lemma_tally_append(color_table(old(stroke)@), before, seq![e], false);
                }
                count_color(fill, stroke, is_fill, color, Ghost(b + before.len()));
            } else {
                assert(before + Seq::<(bool, Seq<char>)>::empty() =~= before);
            }
        } else if str_eq(key, "style") {
            proof {
                lemma_tally_append(color_table(old(fill)@), before, style_colors(value@), true);
                lemma_tally_append(color_table(old(stroke)@), before, style_colors(value@), false);
            }
            parse_style_attr(fill, stroke, value, Ghost(b + before.len()));
        } else {
            assert(before + Seq::<(bool, Seq<char>)>::empty() =~= before);
        }
        i += 1;
    }
    assert(a.take(attributes.len() as int) =~= a);
    proof {
        lemma_attribute_colors_len(a);
    }
}

/// The kinds of SVG elements that the analysis tells apart.
#[derive(Debug, Clone, Copy, PartialEq, Eq)]
pub enum ElementKind {
    Svg,
    Group,
    Path,
    Circle,
    Rect,
    Ellipse,
    Line,
    Polyline,
    Polygon,
    Text,
    Image,
    Use,
    Defs,
    ClipPath,
    Mask,
    Gradient,
    Pattern,
    Other,
}

/// The kind of an element by its tag name (`text` and `tspan` are text,
/// both gradient elements are gradients).
pub open spec fn kind_of(name: Seq<char>) -> ElementKind {
    if name == "svg"@ {
        ElementKind::Svg
    } else if name == "g"@ {
        ElementKind::Group
    } else if name == "path"@ {
        ElementKind::Path
    } else if name == "circle"@ {
        ElementKind::Circle
    } else if name == "rect"@ {
        ElementKind::Rect
    } else if name == "ellipse"@ {
        ElementKind::Ellipse
    } else if name == "line"@ {
        ElementKind::Line
    } else if name == "polyline"@ {
        ElementKind::Polyline
    } else if name == "polygon"@ {
        ElementKind::Polygon
    } else if name == "text"@ || name == "tspan"@ {
        ElementKind::Text
    } else if name == "image"@ {
        ElementKind::Image
    } else if name == "use"@ {
        ElementKind::Use
    } else if name == "defs"@ {
        ElementKind::Defs
    } else if name == "clipPath"@ {
        ElementKind::ClipPath
    } else if name == "mask"@ {
        ElementKind::Mask
    } else if name == "linearGradient"@ || name == "radialGradient"@ {
        ElementKind::Gradient
    } else if name == "pattern"@ {
        ElementKind::Pattern
    } else {
        ElementKind::Other
    }
}

/// The kind of an element by its tag name.
pub fn element_kind(name: &str) -> (k: ElementKind)
    ensures
        k == kind_of(name@),
{
    if str_eq(name, "svg") {
        ElementKind::Svg
    } else if str_eq(name, "g") {
        ElementKind::Group
    } else if str_eq(name, "path") {
        ElementKind::Path
    } else if str_eq(name, "circle") {
        ElementKind::Circle
    } else if str_eq(name, "rect") {
        ElementKind::Rect
    } else if str_eq(name, "ellipse") {
        ElementKind::Ellipse
    } else if str_eq(name, "line") {
        ElementKind::Line
    } else if str_eq(name, "polyline") {
        ElementKind::Polyline
    } else if str_eq(name, "polygon") {
        ElementKind::Polygon
    } else if str_eq(name, "text") || str_eq(name, "tspan") {
        ElementKind::Text
    } else if str_eq(name, "image") {
        ElementKind::Image
    } else if str_eq(name, "use") {
        ElementKind::Use
    } else if str_eq(name, "defs") {
        ElementKind::Defs
    } else if str_eq(name, "clipPath") {
        ElementKind::ClipPath
    } else if str_eq(name, "mask") {
        ElementKind::Mask
    } else if str_eq(name, "linearGradient") || str_eq(name, "radialGradient") {
        ElementKind::Gradient
    } else if str_eq(name, "pattern") {
        ElementKind::Pattern
    } else {
        ElementKind::Other
    }
}

/// Shapes whose fill and stroke colors are counted.
pub open spec fn is_shape(k: ElementKind) -> bool {
    matches!(k, ElementKind::Path | ElementKind::Circle | ElementKind::Rect | ElementKind::Ellipse
        | ElementKind::Line | ElementKind::Polyline | ElementKind::Polygon)
}

/// The element counts after one more element of kind `k`: its own counter
/// and the total go up by one.
pub open spec fn counted(c: ElementCounts, k: ElementKind) -> ElementCounts {
    let c = ElementCounts { total: (c.total + 1) as usize, ..c };
    match k {
        ElementKind::Group => ElementCounts { groups: (c.groups + 1) as usize, ..c },
        ElementKind::Path => ElementCounts { paths: (c.paths + 1) as usize, ..c },
        ElementKind::Circle => ElementCounts { circles: (c.circles + 1) as usize, ..c },
        ElementKind::Rect => ElementCounts { rects: (c.rects + 1) as usize, ..c },
        ElementKind::Ellipse => ElementCounts { ellipses: (c.ellipses + 1) as usize, ..c },
        ElementKind::Line => ElementCounts { lines: (c.lines + 1) as usize, ..c },
        ElementKind::Polyline => ElementCounts { polylines: (c.polylines + 1) as usize, ..c },
        ElementKind::Polygon => ElementCounts { polygons: (c.polygons + 1) as usize, ..c },
        ElementKind::Text => ElementCounts { text: (c.text + 1) as usize, ..c },
        ElementKind::Image => ElementCounts { images: (c.images + 1) as usize, ..c },
        ElementKind::Use => ElementCounts { use_elements: (c.use_elements + 1) as usize, ..c },
        ElementKind::Defs => ElementCounts { defs: (c.defs + 1) as usize, ..c },
        ElementKind::ClipPath => ElementCounts { clip_paths: (c.clip_paths + 1) as usize, ..c },
        ElementKind::Mask => ElementCounts { masks: (c.masks + 1) as usize, ..c },
        ElementKind::Gradient => ElementCounts { gradients: (c.gradients + 1) as usize, ..c },
        ElementKind::Pattern => ElementCounts { patterns: (c.patterns + 1) as usize, ..c },
        _ => c,
    }
}

/// Every per-kind count is at most the total.
pub open spec fn counts_within_total(c: ElementCounts) -> bool {
    &&& c.paths <= c.total
    &&& c.groups <= c.total
    &&& c.circles <= c.total
    &&& c.rects <= c.total
    &&& c.ellipses <= c.total
    &&& c.lines <= c.total
    &&& c.polylines <= c.total
    &&& c.polygons <= c.total
    &&& c.text <= c.total
    &&& c.images <= c.total
    &&& c.use_elements <= c.total
    &&& c.defs <= c.total
    &&& c.clip_paths <= c.total
    &&& c.masks <= c.total
    &&& c.gradients <= c.total
    &&& c.patterns <= c.total
}

/// Counts one more element of kind `k`.
fn count_element(c: &mut ElementCounts, k: ElementKind)
    requires
        counts_within_total(*old(c)),
        old(c).total < usize::MAX,
    ensures
        *final(c) == counted(*old(c), k),
        counts_within_total(*final(c)),
{
    c.total = c.total + 1;
    match k {
        ElementKind::Group => c.groups = c.groups + 1,
        ElementKind::Path => c.paths = c.paths + 1,
        ElementKind::Circle => c.circles = c.circles + 1,
        ElementKind::Rect => c.rects = c.rects + 1,
        ElementKind::Ellipse => c.ellipses = c.ellipses + 1,
        ElementKind::Line => c.lines = c.lines + 1,
        ElementKind::Polyline => c.polylines = c.polylines + 1,
        ElementKind::Polygon => c.polygons = c.polygons + 1,
        ElementKind::Text => c.text = c.text + 1,
        ElementKind::Image => c.images = c.images + 1,
        ElementKind::Use => c.use_elements = c.use_elements + 1,
        ElementKind::Defs => c.defs = c.defs + 1,
        ElementKind::ClipPath => c.clip_paths = c.clip_paths + 1,
        ElementKind::Mask => c.masks = c.masks + 1,
        ElementKind::Gradient => c.gradients = c.gradients + 1,
        ElementKind::Pattern => c.patterns = c.patterns + 1,
        _ => {},
    }
}

/// The value of the last attribute named `key`, if any.
pub open spec fn last_value(attrs: Seq<(Seq<char>, Seq<char>)>, key: Seq<char>) -> Option<Seq<char>>
    decreases attrs.len(),
{
    if attrs.len() == 0 {
        None
    } else if attrs.last().0 == key {
        Some(attrs.last().1)
    } else {
        last_value(attrs.drop_last(), key)
    }
}

/// How many attributes are named `key`.
pub open spec fn key_count(attrs: Seq<(Seq<char>, Seq<char>)>, key: Seq<char>) -> nat
    decreases attrs.len(),
{
    if attrs.len() == 0 {
        0
    } else {
        key_count(attrs.drop_last(), key) + if attrs.last().0 == key { 1nat } else { 0nat }
    }
}

proof fn lemma_key_count_bound(attrs: Seq<(Seq<char>, Seq<char>)>, key: Seq<char>)
    ensures
        key_count(attrs, key) <= attr_weight(attrs),
    decreases attrs.len(),
{
    if attrs.len() > 0 {
        lemma_key_count_bound(attrs.drop_last(), key);
    }
}

/// The `id` and whether there is a `transform` attribute.
fn group_attributes(attributes: &[(String, String)]) -> (r: (Option<String>, bool))
    ensures
        match r.0 {
            Some(id) => last_value(attr_views(attributes@), "id"@) == Some(id@),
            None => last_value(attr_views(attributes@), "id"@) is None,
        },
        r.1 == (key_count(attr_views(attributes@), "transform"@) > 0),
{
    let ghost a = attr_views(attributes@);
    let mut id: Option<String> = None;
    let mut has_transform = false;
    let mut i: usize = 0;
    assert(a.take(0) =~= Seq::<(Seq<char>, Seq<char>)>::empty());
    while i < attributes.len()
        invariant
            i <= attributes.len(),
            a == attr_views(attributes@),
            match id {
                Some(v) => last_value(a.take(i as int), "id"@) == Some(v@),
                None => last_value(a.take(i as int), "id"@) is None,
            },
            has_transform == (key_count(a.take(i as int), "transform"@) > 0),
        decreases attributes.len() - i,
    {
        assert(a.take(i + 1).drop_last() =~= a.take(i as int));
        assert(a.take(i + 1).last() == (attributes@[i as int].0@, attributes@[i as int].1@));
        let key = attributes[i].0.as_str();
        if str_eq(key, "id") {
            id = Some(attributes[i].1.clone());
        }
        if str_eq(key, "transform") {
            has_transform = true;
        }
        i += 1;
    }
    assert(a.take(attributes.len() as int) =~= a);
    (id, has_transform)
}

/// The number of `transform` attributes.
fn count_transforms(attributes: &[(String, String)]) -> (n: usize)
    requires
        attr_weight(attr_views(attributes@)) <= usize::MAX,
    ensures
        n == key_count(attr_views(attributes@), "transform"@),
{
    let ghost a = attr_views(attributes@);
    let mut n: usize = 0;
    let mut i: usize = 0;
    assert(a.take(0) =~= Seq::<(Seq<char>, Seq<char>)>::empty());
    while i < attributes.len()
        invariant
            i <= attributes.len(),
            a == attr_views(attributes@),
            attr_weight(a) <= usize::MAX,
            n == key_count(a.take(i as int), "transform"@),
        decreases attributes.len() - i,
    {
        assert(a.take(i + 1).drop_last() =~= a.take(i as int));
        assert(a.take(i + 1).last() == (attributes@[i as int].0@, attributes@[i as int].1@));
        proof {
            lemma_key_count_bound(a.take(i + 1), "transform"@);
            lemma_attr_weight_prefix(a, i + 1);
        }
        if str_eq(attributes[i].0.as_str(), "transform") {
            n = n + 1;
        }
        i += 1;
    }
    assert(a.take(attributes.len() as int) =~= a);
    n
}

/// What the root element's attributes set: the view box (as its four number
/// texts), width, height, and the warnings so far.
pub type SvgFields = (Option<Seq<Seq<char>>>, Option<Seq<char>>, Option<Seq<char>>, Seq<Seq<char>>);

/// The effect of one attribute of the root element.
pub open spec fn svg_attribute(st: SvgFields, key: Seq<char>, value: Seq<char>) -> SvgFields {
    if key == "viewBox"@ || key == "viewbox"@ {
        if is_valid_viewbox(value) {
            (Some(viewbox_fields(value)), st.1, st.2, st.3)
        } else {
            (None, st.1, st.2, st.3.push("Invalid viewBox: "@ + value))
        }
    } else if key == "width"@ {
        (st.0, Some(value), st.2, st.3)
    } else if key == "height"@ {
        (st.0, st.1, Some(value), st.3)
    } else {
        st
    }
}

/// The effect of the root element's attributes, in order.
pub open spec fn svg_attributes(st: SvgFields, attrs: Seq<(Seq<char>, Seq<char>)>) -> SvgFields
    decreases attrs.len(),
{
    if attrs.len() == 0 {
        st
    } else {
        svg_attribute(svg_attributes(st, attrs.drop_last()), attrs.last().0, attrs.last().1)
    }
}

/// The effect of a root element: its attributes, then a warning when there
/// is still neither a view box nor a width or height.
pub open spec fn svg_element(st: SvgFields, attrs: Seq<(Seq<char>, Seq<char>)>) -> SvgFields {
    let r = svg_attributes(st, attrs);
    if r.0 is None && r.1 is None && r.2 is None {
        (r.0, r.1, r.2, r.3.push("SVG has no viewBox or dimensions"@))
    } else {
        r
    }
}

/// A table listed in another order holds the same colors and counts.
proof fn lemma_same_entries(v: Seq<ColorInfo>, w: Seq<ColorInfo>)
    requires
        distinct_colors(v),
        color_views(w).to_multiset() == color_views(v).to_multiset(),
    ensures
        distinct_colors(w),
        color_table(w) == color_table(v),
{
    broadcast use vstd::seq_lib::to_multiset_contains;

    let vv = color_views(v);
    let ww = color_views(w);
    lemma_views_no_duplicates(v);
    vv.lemma_multiset_has_no_duplicates();
    ww.lemma_multiset_has_no_duplicates_conv();
    assert forall|i: int, j: int| 0 <= i < j < w.len() implies #[trigger] w[i].color@ != #[trigger] w[j].color@ by {
        if w[i].color@ == w[j].color@ {
            assert(ww[i] != ww[j]);
            assert(ww.contains(ww[i]));
            assert(ww.contains(ww[j]));
            assert(vv.to_multiset().count(ww[i]) > 0);
            assert(vv.to_multiset().count(ww[j]) > 0);
            let p = choose|p: int| 0 <= p < vv.len() && vv[p] == ww[i];
            let q = choose|q: int| 0 <= q < vv.len() && vv[q] == ww[j];
            assert(p != q);
            if p < q {
                assert(v[p].color@ != v[q].color@);
            } else {
                assert(v[q].color@ != v[p].color@);
            }
        }
    }
    lemma_color_table(v);
    lemma_color_table(w);
    assert forall|c: Seq<char>| #[trigger] color_table(w).contains_key(c) implies color_table(v).contains_key(c)
        && color_table(v)[c] == color_table(w)[c] by {
        let i = choose|i: int| 0 <= i < w.len() && w[i].color@ == c;
        assert(ww.contains(ww[i]));
        assert(vv.to_multiset().count(ww[i]) > 0);
        let p = choose|p: int| 0 <= p < vv.len() && vv[p] == ww[i];
        assert(v[p].color@ == c);
        assert(color_table(v).contains_key(v[p].color@));
        assert(color_table(w).contains_key(w[i].color@));
    }
    assert forall|c: Seq<char>| #[trigger] color_table(v).contains_key(c) implies color_table(w).contains_key(c) by {
        let p = choose|p: int| 0 <= p < v.len() && v[p].color@ == c;
        assert(vv.contains(vv[p]));
        assert(ww.to_multiset().count(vv[p]) > 0);
        let i = choose|i: int| 0 <= i < ww.len() && ww[i] == vv[p];
        assert(w[i].color@ == c);
        assert(color_table(w).contains_key(w[i].color@));
    }
    assert(color_table(w) =~= color_table(v));
}

/// Applies the root element's attributes (see `svg_element`).
fn process_svg_attrs(
    view_box: &mut Option<ViewBox>,
    width: &mut Option<String>,
    height: &mut Option<String>,
    warnings: &mut Vec<String>,
    attributes: &[(String, String)],
)
    ensures
        (view_box_view(*final(view_box)), opt_view(*final(width)), opt_view(*final(height)), string_views(
            final(warnings)@,
        )) == svg_element(
            (view_box_view(*old(view_box)), opt_view(*old(width)), opt_view(*old(height)), string_views(
                old(warnings)@,
            )),
            attr_views(attributes@),
        ),
{
    let ghost a = attr_views(attributes@);
    let ghost st0: SvgFields = (view_box_view(*view_box), opt_view(*width), opt_view(*height), string_views(
        warnings@,
    ));
    assert(a.take(0) =~= Seq::<(Seq<char>, Seq<char>)>::empty());
    let mut i: usize = 0;
    while i < attributes.len()
        invariant
            i <= attributes.len(),
            a == attr_views(attributes@),
            (view_box_view(*view_box), opt_view(*width), opt_view(*height), string_views(warnings@))
                == svg_attributes(st0, a.take(i as int)),
        decreases attributes.len() - i,
    {
        assert(a.take(i + 1).drop_last() =~= a.take(i as int));
        assert(a.take(i + 1).last() == (attributes@[i as int].0@, attributes@[i as int].1@));
        let key = attributes[i].0.as_str();
        let value = attributes[i].1.as_str();
        if str_eq(key, "viewBox") || str_eq(key, "viewbox") {
            *view_box = parse_viewbox(value);
            if view_box.is_none() {
                let mut text: Vec<char> = Vec::new();
                push_str(&mut text, "Invalid viewBox: ");
                push_str(&mut text, value);
                let ghost before = warnings@;
                warnings.push(string_of(text.as_slice()));
                assert(string_views(warnings@) =~= string_views(before).push("Invalid viewBox: "@ + value@));
            }
        } else if str_eq(key, "width") {
            *width = Some(attributes[i].1.clone());
        } else if str_eq(key, "height") {
            *height = Some(attributes[i].1.clone());
        }
        i += 1;
    }
    assert(a.take(attributes.len() as int) =~= a);
    if view_box.is_none() && width.is_none() && height.is_none() {
        let ghost before = warnings@;
        let v = chars_of("SVG has no viewBox or dimensions");
        warnings.push(string_of(v.as_slice()));
        assert(string_views(warnings@) =~= string_views(before).push("SVG has no viewBox or dimensions"@));
    }
}

proof fn lemma_views_no_duplicates(v: Seq<ColorInfo>)
    requires
        distinct_colors(v),
    ensures
        color_views(v).no_duplicates(),
{
    let vv = color_views(v);
    assert forall|i: int, j: int| 0 <= i < vv.len() && 0 <= j < vv.len() && i != j implies vv[i] != vv[j] by {
        if i < j {
            assert(v[i].color@ != v[j].color@);
        } else {
            assert(v[j].color@ != v[i].color@);
        }
    }
}

/// The listing of a color table depends on its entries only: two tables
/// (each color once) with the same colors and counts, both ranked, list the
/// same entries in the same order.
pub proof fn color_listing_is_determined_by_table(v: Seq<ColorInfo>, w: Seq<ColorInfo>)
    requires
        distinct_colors(v),
        distinct_colors(w),
        color_table(v) == color_table(w),
        is_ranked(color_views(v)),
        is_ranked(color_views(w)),
    ensures
        color_views(v) == color_views(w),
{
    broadcast use vstd::seq_lib::to_multiset_contains;

    let vv = color_views(v);
    let ww = color_views(w);
    lemma_views_no_duplicates(v);
    lemma_views_no_duplicates(w);
    vv.lemma_multiset_has_no_duplicates();
    ww.lemma_multiset_has_no_duplicates();
    lemma_color_table(v);
    lemma_color_table(w);
    assert forall|x: (Seq<char>, usize)| vv.contains(x) implies ww.contains(x) by {
        let i = choose|i: int| 0 <= i < vv.len() && vv[i] == x;
        assert(color_table(v).contains_key(v[i].color@));
        let j = choose|j: int| 0 <= j < w.len() && w[j].color@ == x.0;
        assert(color_table(w).contains_key(w[j].color@));
        assert(ww[j] == x);
    }
    assert forall|x: (Seq<char>, usize)| ww.contains(x) implies vv.contains(x) by {
        let j = choose|j: int| 0 <= j < ww.len() && ww[j] == x;
        assert(color_table(w).contains_key(w[j].color@));
        let i = choose|i: int| 0 <= i < v.len() && v[i].color@ == x.0;
        assert(color_table(v).contains_key(v[i].color@));
        assert(vv[i] == x);
    }
    assert forall|x: (Seq<char>, usize)| vv.to_multiset().count(x) == ww.to_multiset().count(x) by {
        if vv.contains(x) {
            assert(ww.contains(x));
        } else {
            assert(!ww.contains(x));
        }
    }
    assert(vv.to_multiset() =~= ww.to_multiset());
    ranked_listing_is_unique(vv, ww);
}

/// Every count of a color map is at most `b`.
pub open spec fn map_at_most(m: Map<Seq<char>, nat>, b: nat) -> bool {
    forall|c: Seq<char>| #[trigger] m.contains_key(c) ==> m[c] <= b
}

proof fn lemma_tally_bound(m: Map<Seq<char>, nat>, ev: Seq<(bool, Seq<char>)>, fill: bool, b: nat)
    requires
        map_at_most(m, b),
    ensures
        map_at_most(tally(m, ev, fill), b + ev.len()),
    decreases ev.len(),
{
    if ev.len() > 0 {
        lemma_tally_bound(m, ev.drop_last(), fill, b);
    }
}

proof fn lemma_counts_table(v: Seq<ColorInfo>, b: nat)
    requires
        distinct_colors(v),
    ensures
        counts_at_most(v, b) <==> map_at_most(color_table(v), b),
{
    lemma_color_table(v);
    if map_at_most(color_table(v), b) {
        assert forall|i: int| 0 <= i < v.len() implies #[trigger] v[i].count <= b by {
            assert(color_table(v).contains_key(v[i].color@));
        }
    }
    if counts_at_most(v, b) {
        assert forall|c: Seq<char>| #[trigger] color_table(v).contains_key(c) implies color_table(v)[c] <= b by {
            let i = choose|i: int| 0 <= i < v.len() && v[i].color@ == c;
            assert(color_table(v).contains_key(v[i].color@));
        }
    }
}

/// An optional string as plain characters.
pub open spec fn opt_view(o: Option<String>) -> Option<Seq<char>> {
    match o {
        Some(s) => Some(s@),
        None => None,
    }
}

/// An optional view box as its four number texts.
pub open spec fn view_box_view(o: Option<ViewBox>) -> Option<Seq<Seq<char>>> {
    match o {
        Some(vb) => Some(viewbox_texts(vb)),
        None => None,
    }
}

/// Strings as plain characters.
pub open spec fn string_views(v: Seq<String>) -> Seq<Seq<char>> {
    v.map_values(|s: String| s@)
}

/// A top-level group as plain values: its id, whether it has a transform,
/// and its number of direct child elements.
pub type GroupView = (Option<Seq<char>>, bool, nat);

/// The view of a top-level group.
pub open spec fn group_view(g: GroupInfo) -> GroupView {
    (opt_view(g.id), g.has_transform, g.child_count as nat)
}

/// The views of a list of groups.
pub open spec fn group_views(v: Seq<GroupInfo>) -> Seq<GroupView> {
    v.map_values(|g: GroupInfo| group_view(g))
}

/// A group as the streaming pass records it: per-group element counts and
/// colors are left empty (only the tree-based analysis fills them).
pub open spec fn is_fresh_group(g: GroupInfo) -> bool {
    g.element_counts.is_zero() && g.colors@.len() == 0
}

/// One more direct child for the group at index `i`.
pub open spec fn add_child(gs: Seq<GroupView>, i: nat) -> Seq<GroupView> {
    gs.update(i as int, (gs[i as int].0, gs[i as int].1, gs[i as int].2 + 1))
}

fn copy_counts(c: &ElementCounts) -> (r: ElementCounts)
    ensures
        r == *c,
{
    ElementCounts {
        paths: c.paths,
        groups: c.groups,
        circles: c.circles,
        rects: c.rects,
        ellipses: c.ellipses,
        lines: c.lines,
        polylines: c.polylines,
        polygons: c.polygons,
        text: c.text,
        images: c.images,
        use_elements: c.use_elements,
        defs: c.defs,
        clip_paths: c.clip_paths,
        masks: c.masks,
        gradients: c.gradients,
        patterns: c.patterns,
        total: c.total,
    }
}

fn copy_opt_string(o: &Option<String>) -> (r: Option<String>)
    ensures
        opt_view(r) == opt_view(*o),
{
    match o {
        Some(s) => Some(s.clone()),
        None => None,
    }
}

fn copy_view_box(o: &Option<ViewBox>) -> (r: Option<ViewBox>)
    ensures
        view_box_view(r) == view_box_view(*o),
{
    match o {
        Some(vb) => Some(ViewBox {
            min_x: vb.min_x.clone(),
            min_y: vb.min_y.clone(),
            width: vb.width.clone(),
            height: vb.height.clone(),
        }),
        None => None,
    }
}

fn copy_strings(v: &Vec<String>) -> (r: Vec<String>)
    ensures
        string_views(r@) == string_views(v@),
{
    let mut r: Vec<String> = Vec::new();
    let mut i: usize = 0;
    while i < v.len()
        invariant
            i <= v.len(),
            string_views(r@) == string_views(v@.take(i as int)),
        decreases v.len() - i,
    {
        let ghost before = r@;
        let x = v[i].clone();
        assert(x@ == v@[i as int]@);
        r.push(x);
        assert(string_views(r@) =~= string_views(v@.take(i as int)).push(x@));
        assert(string_views(v@.take(i + 1)) =~= string_views(v@.take(i as int)).push(v@[i as int]@));
        i += 1;
    }
    assert(v@.take(v.len() as int) =~= v@);
    r
}

/// Counts one more direct child of the group at index `i`.
fn add_group_child(groups: &mut Vec<GroupInfo>, i: usize, total: usize)
    requires
        i < old(groups)@.len(),
        total < usize::MAX,
        forall|j: int| 0 <= j < old(groups)@.len() ==> is_fresh_group(#[trigger] old(groups)@[j]),
        forall|j: int| 0 <= j < old(groups)@.len() ==> #[trigger] old(groups)@[j].child_count <= total,
    ensures
        final(groups)@.len() == old(groups)@.len(),
        group_views(final(groups)@) == add_child(group_views(old(groups)@), i as nat),
        forall|j: int| 0 <= j < final(groups)@.len() ==> is_fresh_group(#[trigger] final(groups)@[j]),
        forall|j: int| 0 <= j < final(groups)@.len() ==> #[trigger] final(groups)@[j].child_count <= total + 1,
{
    let g = GroupInfo {
        id: copy_opt_string(&groups[i].id),
        child_count: groups[i].child_count + 1,
        has_transform: groups[i].has_transform,
        element_counts: GroupElementCounts::default(),
        colors: Vec::new(),
    };
    let ghost before = groups@;
    groups.set(i, g);
    assert(group_views(groups@) =~= add_child(group_views(before), i as nat));
}

fn copy_groups(v: &Vec<GroupInfo>) -> (r: Vec<GroupInfo>)
    requires
        forall|i: int| 0 <= i < v@.len() ==> is_fresh_group(#[trigger] v@[i]),
    ensures
        group_views(r@) == group_views(v@),
        forall|i: int| 0 <= i < r@.len() ==> is_fresh_group(#[trigger] r@[i]),
{
    let mut r: Vec<GroupInfo> = Vec::new();
    let mut i: usize = 0;
    while i < v.len()
        invariant
            i <= v.len(),
            forall|j: int| 0 <= j < v@.len() ==> is_fresh_group(#[trigger] v@[j]),
            group_views(r@) == group_views(v@.take(i as int)),
            forall|j: int| 0 <= j < r@.len() ==> is_fresh_group(#[trigger] r@[j]),
        decreases v.len() - i,
    {
        let g = GroupInfo {
            id: copy_opt_string(&v[i].id),
            child_count: v[i].child_count,
            has_transform: v[i].has_transform,
            element_counts: GroupElementCounts::default(),
            colors: Vec::new(),
        };
        let ghost before = r@;
        r.push(g);
        assert(group_views(r@) =~= group_views(before).push(group_view(g)));
        assert(group_views(v@.take(i + 1)) =~= group_views(v@.take(i as int)).push(group_view(v@[i as int])));
        i += 1;
    }
    assert(v@.take(v.len() as int) =~= v@);
    r
}

/// A bound on the analyzer's counters is a bound for every larger number
/// too, so the room left by one call bounds the next.
pub proof fn counters_bound_grows(s: StreamingAnalyzer, b: nat, c: nat)
    requires
        s.counters_at_most(b),
        b <= c,
    ensures
        s.counters_at_most(c),
{
}

/// A start tag counts one more element under the counter of its name and
/// leaves every other per-kind counter as it was: `path` counts a path,
/// `circle` a circle, `ellipse` an ellipse, `text` and `tspan` a text,
/// `linearGradient` and `radialGradient` a gradient, and so on; any other
/// name (`svg` among them) only raises the total. The fill and stroke
/// colors are tallied for the shapes (`path`, `circle`, `rect`, `ellipse`,
/// `line`, `polyline`, `polygon`) outside `<defs>`, and for nothing else.
pub proof fn start_tag_counts_its_kind(
    st: StreamState,
    name: Seq<char>,
    a: Seq<(Seq<char>, Seq<char>)>,
    is_empty: bool,
)
    requires
        st.counts.total < usize::MAX,
        counts_within_total(st.counts),
    ensures
        start_step(st, name, a, is_empty).fill == if (name == "path"@ || name == "circle"@ || name == "rect"@ || name == "ellipse"@ || name == "line"@ || name == "polyline"@ || name == "polygon"@) && !st.in_defs {
            tally(st.fill, attribute_colors(a), true)
        } else {
            st.fill
        },
        start_step(st, name, a, is_empty).stroke == if (name == "path"@ || name == "circle"@ || name == "rect"@ || name == "ellipse"@ || name == "line"@ || name == "polyline"@ || name == "polygon"@) && !st.in_defs {
            tally(st.stroke, attribute_colors(a), false)
        } else {
            st.stroke
        },
        start_step(st, name, a, is_empty).counts.total == st.counts.total + 1,
        start_step(st, name, a, is_empty).counts.paths == st.counts.paths + if name == "path"@ {
            1int
        } else {
            0int
        },
        start_step(st, name, a, is_empty).counts.groups == st.counts.groups + if name == "g"@ {
            1int
        } else {
            0int
        },
        start_step(st, name, a, is_empty).counts.circles == st.counts.circles + if name == "circle"@ {
            1int
        } else {
            0int
        },
        start_step(st, name, a, is_empty).counts.rects == st.counts.rects + if name == "rect"@ {
            1int
        } else {
            0int
        },
        start_step(st, name, a, is_empty).counts.ellipses == st.counts.ellipses + if name == "ellipse"@ {
            1int
        } else {
            0int
        },
        start_step(st, name, a, is_empty).counts.lines == st.counts.lines + if name == "line"@ {
            1int
        } else {
            0int
        },
        start_step(st, name, a, is_empty).counts.polylines == st.counts.polylines + if name == "polyline"@ {
            1int
        } else {
            0int
        },
        start_step(st, name, a, is_empty).counts.polygons == st.counts.polygons + if name == "polygon"@ {
            1int
        } else {
            0int
        },
        start_step(st, name, a, is_empty).counts.text == st.counts.text + if name == "text"@ || name == "tspan"@ {
            1int
        } else {
            0int
        },
        start_step(st, name, a, is_empty).counts.images == st.counts.images + if name == "image"@ {
            1int
        } else {
            0int
        },
        start_step(st, name, a, is_empty).counts.use_elements == st.counts.use_elements + if name == "use"@ {
            1int
        } else {
            0int
        },
        start_step(st, name, a, is_empty).counts.defs == st.counts.defs + if name == "defs"@ {
            1int
        } else {
            0int
        },
        start_step(st, name, a, is_empty).counts.clip_paths == st.counts.clip_paths + if name == "clipPath"@ {
            1int
        } else {
            0int
        },
        start_step(st, name, a, is_empty).counts.masks == st.counts.masks + if name == "mask"@ {
            1int
        } else {
            0int
        },
        start_step(st, name, a, is_empty).counts.gradients == st.counts.gradients + if name == "linearGradient"@ || name == "radialGradient"@ {
            1int
        } else {
            0int
        },
        start_step(st, name, a, is_empty).counts.patterns == st.counts.patterns + if name == "pattern"@ {
            1int
        } else {
            0int
        },
{
    reveal_strlit("svg");
    reveal_strlit("path");
    reveal_strlit("g");
    reveal_strlit("circle");
    reveal_strlit("rect");
    reveal_strlit("ellipse");
    reveal_strlit("line");
    reveal_strlit("polyline");
    reveal_strlit("polygon");
    reveal_strlit("text");
    reveal_strlit("tspan");
    reveal_strlit("image");
    reveal_strlit("use");
    reveal_strlit("defs");
    reveal_strlit("clipPath");
    reveal_strlit("mask");
    reveal_strlit("linearGradient");
    reveal_strlit("radialGradient");
    reveal_strlit("pattern");
    assert("svg"@.len() == 3 && "svg"@[0] == 's' && "svg"@[1] == 'v');
    assert("path"@.len() == 4 && "path"@[0] == 'p' && "path"@[1] == 'a');
    assert("g"@.len() == 1 && "g"@[0] == 'g');
    assert("circle"@.len() == 6 && "circle"@[0] == 'c' && "circle"@[1] == 'i');
    assert("rect"@.len() == 4 && "rect"@[0] == 'r' && "rect"@[1] == 'e');
    assert("ellipse"@.len() == 7 && "ellipse"@[0] == 'e' && "ellipse"@[1] == 'l');
    assert("line"@.len() == 4 && "line"@[0] == 'l' && "line"@[1] == 'i');
    assert("polyline"@.len() == 8 && "polyline"@[0] == 'p' && "polyline"@[1] == 'o');
    assert("polygon"@.len() == 7 && "polygon"@[0] == 'p' && "polygon"@[1] == 'o');
    assert("text"@.len() == 4 && "text"@[0] == 't' && "text"@[1] == 'e');
    assert("tspan"@.len() == 5 && "tspan"@[0] == 't' && "tspan"@[1] == 's');
    assert("image"@.len() == 5 && "image"@[0] == 'i' && "image"@[1] == 'm');
    assert("use"@.len() == 3 && "use"@[0] == 'u' && "use"@[1] == 's');
    assert("defs"@.len() == 4 && "defs"@[0] == 'd' && "defs"@[1] == 'e');
    assert("clipPath"@.len() == 8 && "clipPath"@[0] == 'c' && "clipPath"@[1] == 'l');
    assert("mask"@.len() == 4 && "mask"@[0] == 'm' && "mask"@[1] == 'a');
    assert("linearGradient"@.len() == 14 && "linearGradient"@[0] == 'l' && "linearGradient"@[1] == 'i');
    assert("radialGradient"@.len() == 14 && "radialGradient"@[0] == 'r' && "radialGradient"@[1] == 'a');
    assert("pattern"@.len() == 7 && "pattern"@[0] == 'p' && "pattern"@[1] == 'a');
    assert(kind_of(name) == ElementKind::Path <==> (name == "path"@));
    assert(kind_of(name) == ElementKind::Group <==> (name == "g"@));
    assert(kind_of(name) == ElementKind::Circle <==> (name == "circle"@));
    assert(kind_of(name) == ElementKind::Rect <==> (name == "rect"@));
    assert(kind_of(name) == ElementKind::Ellipse <==> (name == "ellipse"@));
    assert(kind_of(name) == ElementKind::Line <==> (name == "line"@));
    assert(kind_of(name) == ElementKind::Polyline <==> (name == "polyline"@));
    assert(kind_of(name) == ElementKind::Polygon <==> (name == "polygon"@));
    assert(kind_of(name) == ElementKind::Text <==> (name == "text"@ || name == "tspan"@));
    assert(kind_of(name) == ElementKind::Image <==> (name == "image"@));
    assert(kind_of(name) == ElementKind::Use <==> (name == "use"@));
    assert(kind_of(name) == ElementKind::Defs <==> (name == "defs"@));
    assert(kind_of(name) == ElementKind::ClipPath <==> (name == "clipPath"@));
    assert(kind_of(name) == ElementKind::Mask <==> (name == "mask"@));
    assert(kind_of(name) == ElementKind::Gradient <==> (name == "linearGradient"@ || name == "radialGradient"@));
    assert(kind_of(name) == ElementKind::Pattern <==> (name == "pattern"@));
}

/// What the streaming analyzer has gathered, as plain values.
#[verifier::ext_equal]
pub struct StreamState {
    /// Element counts by kind.
    pub counts: ElementCounts,
    /// Top-level groups, in document order.
    pub groups: Seq<GroupView>,
    /// Fill colors and their use counts.
    pub fill: Map<Seq<char>, nat>,
    /// Stroke colors and their use counts.
    pub stroke: Map<Seq<char>, nat>,
    /// View box, width, height and warnings.
    pub svg: SvgFields,
    /// Number of `transform` attributes.
    pub transforms: nat,
    /// Nesting depth of the current element.
    pub depth: nat,
    /// Whether the current element lies inside `<defs>`.
    pub in_defs: bool,
    /// The index of the top-level group whose element is open.
    pub open_group: Option<nat>,
}

/// The state before any tag.
pub open spec fn empty_state() -> StreamState {
    StreamState {
        counts: ElementCounts { paths: 0, circles: 0, rects: 0, ellipses: 0, lines: 0, polylines: 0,
            polygons: 0, groups: 0, text: 0, images: 0, use_elements: 0, defs: 0, clip_paths: 0,
            masks: 0, gradients: 0, patterns: 0, total: 0 },
        groups: Seq::empty(),
        fill: Map::empty(),
        stroke: Map::empty(),
        svg: (None, None, None, Seq::empty()),
        transforms: 0,
        depth: 0,
        in_defs: false,
        open_group: None,
    }
}

/// The effect of a start tag (`is_empty` for a self-closing one) with these
/// attributes: the element is counted by kind; a non-empty element goes one
/// level deeper; `<defs>` starts the defs region; the colors of a shape
/// outside `<defs>` are tallied; the root element's attributes are read; a
/// group at depth two outside `<defs>` is a new top-level group, open until
/// its end tag unless self-closing; an element that starts directly inside
/// the open top-level group is one more child of it; `transform`
/// attributes are counted.
pub open spec fn start_step(
    st: StreamState,
    name: Seq<char>,
    a: Seq<(Seq<char>, Seq<char>)>,
    is_empty: bool,
) -> StreamState {
    let k = kind_of(name);
    let d = st.depth + if is_empty { 0nat } else { 1nat };
    let defs = st.in_defs || name == "defs"@;
    let shape = is_shape(k) && !defs;
    let top = k == ElementKind::Group && d == 2 && !defs;
    let g1 = match st.open_group {
        Some(i) => if st.depth == 2 { add_child(st.groups, i) } else { st.groups },
        None => st.groups,
    };
    StreamState {
        counts: counted(st.counts, k),
        groups: if top { g1.push((last_value(a, "id"@), key_count(a, "transform"@) > 0, 0nat)) } else { g1 },
        fill: if shape { tally(st.fill, attribute_colors(a), true) } else { st.fill },
        stroke: if shape { tally(st.stroke, attribute_colors(a), false) } else { st.stroke },
        svg: if k == ElementKind::Svg { svg_element(st.svg, a) } else { st.svg },
        transforms: st.transforms + key_count(a, "transform"@),
        depth: d,
        in_defs: defs,
        open_group: if top && !is_empty { Some(st.groups.len()) } else { st.open_group },
    }
}

/// The effect of an end tag: leaving `<defs>` ends the defs region, the
/// depth goes one level up (not below zero), and an end tag at depth two or
/// less closes the open top-level group.
pub open spec fn end_step(st: StreamState, name: Seq<char>) -> StreamState {
    StreamState {
        in_defs: if name == "defs"@ { false } else { st.in_defs },
        depth: if st.depth > 0 { (st.depth - 1) as nat } else { 0 },
        open_group: if st.depth <= 2 { None } else { st.open_group },
        ..st
    }
}

/// A summary of a file of `file_size` bytes that reports state `st`: color
/// tables listed without repeats and ranked by count (descending), then by
/// color.
pub open spec fn summarizes(r: SvgSummary, st: StreamState, file_size: u64) -> bool {
    &&& r.file_size_bytes == file_size
    &&& r.file_size_human@ == file_size_text(file_size as nat)
    &&& (view_box_view(r.view_box), opt_view(r.width), opt_view(r.height), string_views(r.warnings@)) == st.svg
    &&& r.element_counts == st.counts
    &&& group_views(r.top_level_groups@) == st.groups
    &&& forall|i: int| 0 <= i < r.top_level_groups@.len() ==> is_fresh_group(#[trigger] r.top_level_groups@[i])
    &&& r.transform_count == st.transforms
    &&& distinct_colors(r.fill_colors@)
    &&& color_table(r.fill_colors@) == st.fill
    &&& is_ranked(color_views(r.fill_colors@))
    &&& distinct_colors(r.stroke_colors@)
    &&& color_table(r.stroke_colors@) == st.stroke
    &&& is_ranked(color_views(r.stroke_colors@))
}

/// The attributes that were read, in order (unreadable ones left out).
pub open spec fn kept(v: Seq<Option<(Seq<char>, Seq<char>)>>) -> Seq<(Seq<char>, Seq<char>)>
    decreases v.len(),
{
    if v.len() == 0 {
        Seq::empty()
    } else {
        match v.last() {
            Some(p) => kept(v.drop_last()).push(p),
            None => kept(v.drop_last()),
        }
    }
}

/// The effect of one tag on the analyzer's state.
pub open spec fn tag_step(st: StreamState, t: TagView) -> StreamState {
    match t {
        TagView::Start(n, raw) => start_step(st, n, kept(attribute_scan(raw, n)), false),
        TagView::Empty(n, raw) => start_step(st, n, kept(attribute_scan(raw, n)), true),
        TagView::End(n) => end_step(st, n),
        TagView::Other => st,
    }
}

/// The effect of a list of tags, in order.
pub open spec fn fold_tags(st: StreamState, tags: Seq<TagView>) -> StreamState
    decreases tags.len(),
{
    if tags.len() == 0 {
        st
    } else {
        tag_step(fold_tags(st, tags.drop_last()), tags.last())
    }
}

/// How much a tag can add to a counter: one plus the weight of the
/// attributes of a start tag, nothing for other tags.
pub open spec fn tag_weight(t: TagView) -> nat {
    match t {
        TagView::Start(n, raw) => attr_weight(kept(attribute_scan(raw, n))) + 1,
        TagView::Empty(n, raw) => attr_weight(kept(attribute_scan(raw, n))) + 1,
        _ => 0,
    }
}

/// How much a list of tags can add to a counter.
pub open spec fn total_weight(tags: Seq<TagView>) -> nat
    decreases tags.len(),
{
    if tags.len() == 0 {
        0
    } else {
        total_weight(tags.drop_last()) + tag_weight(tags.last())
    }
}

/// The message of an analysis whose counters could overflow.
pub open spec fn too_large_text() -> Seq<char> {
    "SVG too large to count"@
}

proof fn lemma_total_weight_prefix(tags: Seq<TagView>, i: int)
    requires
        0 <= i <= tags.len(),
    ensures
        total_weight(tags.take(i)) <= total_weight(tags),
    decreases tags.len() - i,
{
    if i == tags.len() {
        assert(tags.take(i) =~= tags);
    } else {
        assert(tags.take(i + 1).drop_last() =~= tags.take(i));
        lemma_total_weight_prefix(tags, i + 1);
    }
}

/// The attributes that were read, as a list of pairs.
fn kept_attributes(v: &Vec<Option<(String, String)>>) -> (r: Vec<(String, String)>)
    ensures
        attr_views(r@) == kept(slot_views(v@)),
{
    let mut r: Vec<(String, String)> = Vec::new();
    let mut i: usize = 0;
    while i < v.len()
        invariant
            i <= v.len(),
            attr_views(r@) == kept(slot_views(v@).take(i as int)),
        decreases v.len() - i,
    {
        assert(slot_views(v@).take(i + 1).drop_last() =~= slot_views(v@).take(i as int));
        let ghost before = r@;
        match &v[i] {
            Some(p) => {
                r.push((p.0.clone(), p.1.clone()));
                assert(attr_views(r@) =~= attr_views(before).push((p.0@, p.1@)));
            },
            None => {},
        }
        i += 1;
    }
    assert(slot_views(v@).take(v.len() as int) =~= slot_views(v@));
    r
}

/// The weight of the attributes that were read, or `None` when it reaches
/// `usize::MAX`.
fn kept_weight(v: &Vec<Option<(String, String)>>) -> (r: Option<usize>)
    ensures
        match r {
            Some(w) => w == attr_weight(kept(slot_views(v@))) && w < usize::MAX,
            None => attr_weight(kept(slot_views(v@))) >= usize::MAX,
        },
{
    let mut w: usize = 0;
    let mut i: usize = 0;
    while i < v.len()
        invariant
            i <= v.len(),
            w == attr_weight(kept(slot_views(v@).take(i as int))),
            w < usize::MAX,
        decreases v.len() - i,
    {
        assert(slot_views(v@).take(i + 1).drop_last() =~= slot_views(v@).take(i as int));
        match &v[i] {
            Some(p) => {
                let n = chars_of(p.1.as_str()).len();
                let ghost prev = kept(slot_views(v@).take(i as int));
                assert(slot_views(v@).take(i + 1).last() == Some((p.0@, p.1@)));
                assert(kept(slot_views(v@).take(i + 1)) == prev.push((p.0@, p.1@)));
                assert(prev.push((p.0@, p.1@)).drop_last() =~= prev);
                assert(attr_weight(prev.push((p.0@, p.1@))) == w + n + 1);
                if n >= usize::MAX - 1 - w {
                    proof {
                        lemma_kept_weight_prefix(slot_views(v@), i + 1);
                    }
                    return None;
                }
                w = w + n + 1;
            },
            None => {
                assert(slot_views(v@).take(i + 1).last() is None);
            },
        }
        i += 1;
    }
    assert(slot_views(v@).take(v.len() as int) =~= slot_views(v@));
    Some(w)
}

proof fn lemma_kept_weight_prefix(v: Seq<Option<(Seq<char>, Seq<char>)>>, i: int)
    requires
        0 <= i <= v.len(),
    ensures
        attr_weight(kept(v.take(i))) <= attr_weight(kept(v)),
    decreases v.len() - i,
{
    if i == v.len() {
        assert(v.take(i) =~= v);
    } else {
        assert(v.take(i + 1).drop_last() =~= v.take(i));
        lemma_kept_weight_prefix(v, i + 1);
        let k = kept(v.take(i));
        match v.take(i + 1).last() {
            Some(p) => {
                assert(k.push(p).drop_last() =~= k);
            },
            None => {},
        }
    }
}

/// The total weight of a list of tags, or `None` when it reaches
/// `usize::MAX`.
fn tags_weight(tags: &Vec<XmlTag>) -> (r: Option<usize>)
    requires
        forall|i: int| 0 <= i < tags@.len() ==> name_leads(#[trigger] tags@[i]),
    ensures
        match r {
            Some(w) => w == total_weight(tag_views(tags@)) && w < usize::MAX,
            None => total_weight(tag_views(tags@)) >= usize::MAX,
        },
{
    let ghost t = tag_views(tags@);
    let mut w: usize = 0;
    let mut i: usize = 0;
    while i < tags.len()
        invariant
            i <= tags.len(),
            t == tag_views(tags@),
            forall|j: int| 0 <= j < tags@.len() ==> name_leads(#[trigger] tags@[j]),
            w == total_weight(t.take(i as int)),
            w < usize::MAX,
        decreases tags.len() - i,
    {
        assert(t.take(i + 1).drop_last() =~= t.take(i as int));
        assert(t.take(i + 1).last() == tag_view(tags@[i as int]));
        assert(name_leads(tags@[i as int]));
        let k: usize = match &tags[i] {
            XmlTag::Start(name, raw) => match kept_weight(&tag_attributes(raw.as_str(), name.as_str())) {
                Some(x) => x,
                None => {
                    proof { lemma_total_weight_prefix(t, i + 1); }
                    return None;
                },
            },
            XmlTag::Empty(name, raw) => match kept_weight(&tag_attributes(raw.as_str(), name.as_str())) {
                Some(x) => x,
                None => {
                    proof { lemma_total_weight_prefix(t, i + 1); }
                    return None;
                },
            },
            _ => {
                i += 1;
                continue;
            },
        };
        if k >= usize::MAX - 1 - w {
            proof { lemma_total_weight_prefix(t, i + 1); }
            return None;
        }
        w = w + k + 1;
        i += 1;
    }
    assert(t.take(tags.len() as int) =~= t);
    Some(w)
}

/// Streaming analyzer for SVG files: fed one start or end tag at a time, it
/// keeps element counts, top-level groups, color usage and the root
/// element's attributes, without building a tree.
pub struct StreamingAnalyzer {
    element_counts: ElementCounts,
    top_groups: Vec<GroupInfo>,
    fill_colors: Vec<ColorInfo>,
    stroke_colors: Vec<ColorInfo>,
    view_box: Option<ViewBox>,
    width: Option<String>,
    height: Option<String>,
    transform_count: usize,
    depth: usize,
    in_defs: bool,
    warnings: Vec<String>,
    open_group: Option<usize>,
}

impl StreamingAnalyzer {
    /// Element counts so far.
    pub closed spec fn counts(&self) -> ElementCounts {
        self.element_counts
    }

    /// Top-level groups so far, in document order.
    pub closed spec fn groups(&self) -> Seq<GroupView> {
        group_views(self.top_groups@)
    }

    /// Fill colors and how many times each was used.
    pub closed spec fn fill_table(&self) -> Map<Seq<char>, nat> {
        color_table(self.fill_colors@)
    }

    /// Stroke colors and how many times each was used.
    pub closed spec fn stroke_table(&self) -> Map<Seq<char>, nat> {
        color_table(self.stroke_colors@)
    }

    /// View box, width, height and warnings.
    pub closed spec fn svg_fields(&self) -> SvgFields {
        (view_box_view(self.view_box), opt_view(self.width), opt_view(self.height), string_views(self.warnings@))
    }

    /// Number of `transform` attributes seen.
    pub closed spec fn transforms(&self) -> nat {
        self.transform_count as nat
    }

    /// Nesting depth of the current element.
    pub closed spec fn depth(&self) -> nat {
        self.depth as nat
    }

    /// Whether the current element lies inside `<defs>`.
    pub closed spec fn in_defs(&self) -> bool {
        self.in_defs
    }

    /// The index of the top-level group whose element is open, if any.
    pub closed spec fn open_group(&self) -> Option<nat> {
        match self.open_group {
            Some(i) => Some(i as nat),
            None => None,
        }
    }

    /// Everything the analyzer has gathered, as plain values.
    pub closed spec fn model(&self) -> StreamState {
        StreamState {
            counts: self.counts(),
            groups: self.groups(),
            fill: self.fill_table(),
            stroke: self.stroke_table(),
            svg: self.svg_fields(),
            transforms: self.transforms(),
            depth: self.depth(),
            in_defs: self.in_defs(),
            open_group: self.open_group(),
        }
    }

    /// The analyzer's internal consistency.
    pub closed spec fn inv(&self) -> bool {
        &&& distinct_colors(self.fill_colors@)
        &&& distinct_colors(self.stroke_colors@)
        &&& counts_within_total(self.element_counts)
        &&& self.depth <= self.element_counts.total
        &&& forall|i: int| 0 <= i < self.top_groups@.len() ==> is_fresh_group(#[trigger] self.top_groups@[i])
        &&& forall|i: int| 0 <= i < self.top_groups@.len() ==> #[trigger] self.top_groups@[i].child_count <= self.element_counts.total
        &&& (self.open_group matches Some(i) ==> i < self.top_groups@.len())
    }

    /// Every counter (the element total, transforms, each color count) is at
    /// most `b`.
    pub closed spec fn counters_at_most(&self, b: nat) -> bool {
        &&& self.element_counts.total <= b
        &&& self.transform_count <= b
        &&& counts_at_most(self.fill_colors@, b)
        &&& counts_at_most(self.stroke_colors@, b)
    }

    /// The counters can take an element whose attributes weigh `w` (see
    /// `attr_weight`) without overflowing.
    pub open spec fn has_room(&self, w: nat) -> bool {
        w < usize::MAX && self.counters_at_most((usize::MAX - 1 - w) as nat)
    }

    /// An analyzer that has seen nothing.
    pub fn new() -> (r: Self)
        ensures
            r.inv(),
            r.model() == empty_state(),
            r.counters_at_most(0),
    {
        let r = StreamingAnalyzer {
            element_counts: ElementCounts::default(),
            top_groups: Vec::new(),
            fill_colors: Vec::new(),
            stroke_colors: Vec::new(),
            view_box: None,
            width: None,
            height: None,
            transform_count: 0,
            depth: 0,
            in_defs: false,
            warnings: Vec::new(),
            open_group: None,
        };
        assert(r.groups() =~= Seq::<GroupView>::empty());
        assert(string_views(r.warnings@) =~= Seq::<Seq<char>>::empty());
        assert(r.model() =~= empty_state());
        r
    }

    /// Whether the counters can take an element with these attributes (see
    /// `has_room`).
    pub fn has_room_for(&self, attributes: &[(String, String)]) -> (r: bool)
        ensures
            r == self.has_room(attr_weight(attr_views(attributes@))),
    {
        let ghost a = attr_views(attributes@);
        let mut w: usize = 0;
        let mut i: usize = 0;
        assert(a.take(0) =~= Seq::<(Seq<char>, Seq<char>)>::empty());
        while i < attributes.len()
            invariant
                i <= attributes.len(),
                a == attr_views(attributes@),
                w == attr_weight(a.take(i as int)),
                w < usize::MAX,
            decreases attributes.len() - i,
        {
            assert(a.take(i + 1).drop_last() =~= a.take(i as int));
            assert(a.take(i + 1).last() == (attributes@[i as int].0@, attributes@[i as int].1@));
            let n = chars_of(attributes[i].1.as_str()).len();
            assert(attr_weight(a.take(i + 1)) == w + n + 1);
            if n >= usize::MAX - 1 - w {
                proof {
                    lemma_attr_weight_prefix(a, i + 1);
                }
                return false;
            }
            w = w + n + 1;
            i += 1;
        }
        assert(a.take(attributes.len() as int) =~= a);
        if w >= usize::MAX {
            return false;
        }
        let b = usize::MAX - 1 - w;
        assert(b as nat == (usize::MAX - 1 - attr_weight(a)) as nat);
        if self.element_counts.total > b || self.transform_count > b {
            assert(!self.counters_at_most(b as nat));
            return false;
        }
        let ghost bound: nat = (usize::MAX - 1 - attr_weight(a)) as nat;
        let mut k: usize = 0;
        while k < self.fill_colors.len()
            invariant
                k <= self.fill_colors.len(),
                a == attr_views(attributes@),
                attr_weight(a) < usize::MAX,
                b as nat == bound,
                bound == (usize::MAX - 1 - attr_weight(a)) as nat,
                forall|j: int| 0 <= j < k ==> #[trigger] self.fill_colors@[j].count <= b,
            decreases self.fill_colors.len() - k,
        {
            if self.fill_colors[k].count > b {
                assert(!counts_at_most(self.fill_colors@, b as nat));
                return false;
            }
            k += 1;
        }
        let mut k: usize = 0;
        while k < self.stroke_colors.len()
            invariant
                k <= self.stroke_colors.len(),
                a == attr_views(attributes@),
                attr_weight(a) < usize::MAX,
                b as nat == bound,
                bound == (usize::MAX - 1 - attr_weight(a)) as nat,
                counts_at_most(self.fill_colors@, bound),
                forall|j: int| 0 <= j < k ==> #[trigger] self.stroke_colors@[j].count <= b,
            decreases self.stroke_colors.len() - k,
        {
            if self.stroke_colors[k].count > b {
                assert(!counts_at_most(self.stroke_colors@, b as nat));
                return false;
            }
            k += 1;
        }
        true
    }

    /// Takes in a start tag (`is_empty` for a self-closing one): counts the
    /// element by kind, tracks depth and `<defs>`, counts the colors of
    /// shapes outside `<defs>`, records top-level groups (depth two) and the
    /// root element's attributes, and counts `transform` attributes.
    pub fn process_start_element(&mut self, name: &str, attributes: &[(String, String)], is_empty: bool)
        requires
            old(self).inv(),
            old(self).has_room(attr_weight(attr_views(attributes@))),
        ensures
            final(self).inv(),
            final(self).model() == start_step(old(self).model(), name@, attr_views(attributes@), is_empty),
            forall|b: nat| #[trigger] old(self).counters_at_most(b) ==> final(self).counters_at_most(
                b + attr_weight(attr_views(attributes@)) + 1,
            ),
    {
        let ghost a = attr_views(attributes@);
        let ghost w = attr_weight(a);
        let ghost b0: nat = (usize::MAX - 1 - w) as nat;
        proof {
            lemma_attribute_colors_len(a);
            lemma_key_count_bound(a, "transform"@);
        }
        let ghost st0 = old(self).model();
        if self.depth == 2 {
            if let Some(i) = self.open_group {
                add_group_child(&mut self.top_groups, i, self.element_counts.total);
            }
        }
        let ghost g1 = self.groups();
        assert(g1 == match st0.open_group {
            Some(i) => if st0.depth == 2 { add_child(st0.groups, i) } else { st0.groups },
            None => st0.groups,
        });
        if !is_empty {
            self.depth = self.depth + 1;
        }
        if str_eq(name, "defs") {
            self.in_defs = true;
        }
        let kind = element_kind(name);
        match kind {
            ElementKind::Svg => {
                process_svg_attrs(&mut self.view_box, &mut self.width, &mut self.height, &mut self.warnings, attributes);
            },
            ElementKind::Group => {
                if self.depth == 2 && !self.in_defs {
                    let (id, has_transform) = group_attributes(attributes);
                    let g = GroupInfo {
                        id,
                        child_count: 0,
                        has_transform,
                        element_counts: GroupElementCounts::default(),
                        colors: Vec::new(),
                    };
                    let ghost before = self.top_groups@;
                    let idx = self.top_groups.len();
                    self.top_groups.push(g);
                    assert(group_views(self.top_groups@) =~= group_views(before).push(group_view(g)));
                    if !is_empty {
                        self.open_group = Some(idx);
                    }
                }
            },
            ElementKind::Path | ElementKind::Circle | ElementKind::Rect | ElementKind::Ellipse
            | ElementKind::Line | ElementKind::Polyline | ElementKind::Polygon => {
                if !self.in_defs {
                    add_attribute_colors(&mut self.fill_colors, &mut self.stroke_colors, attributes, Ghost(b0));
                }
            },
            _ => {},
        }
        let n = count_transforms(attributes);
        self.transform_count = self.transform_count + n;
        count_element(&mut self.element_counts, kind);
        proof {
            assert forall|b: nat| #[trigger] old(self).counters_at_most(b) implies self.counters_at_most(b + w + 1) by {
                lemma_counts_table(old(self).fill_colors@, b);
                lemma_counts_table(old(self).stroke_colors@, b);
                lemma_tally_bound(color_table(old(self).fill_colors@), attribute_colors(a), true, b);
                lemma_tally_bound(color_table(old(self).stroke_colors@), attribute_colors(a), false, b);
                lemma_counts_table(self.fill_colors@, b + w + 1);
                lemma_counts_table(self.stroke_colors@, b + w + 1);
                if is_shape(kind) && !self.in_defs {
                    assert(map_at_most(color_table(self.fill_colors@), b + w + 1));
                    assert(map_at_most(color_table(self.stroke_colors@), b + w + 1));
                } else {
                    assert(map_at_most(color_table(self.fill_colors@), b + w + 1));
                }
            }
            assert(self.model() =~= start_step(st0, name@, a, is_empty));
        }
    }

    /// Takes in an end tag: leaving `<defs>` ends it, and the depth goes one
    /// level up (not below zero).
    pub fn process_end_element(&mut self, name: &str)
        requires
            old(self).inv(),
        ensures
            final(self).inv(),
            final(self).model() == end_step(old(self).model(), name@),
            forall|b: nat| #[trigger] old(self).counters_at_most(b) ==> final(self).counters_at_most(b),
    {
        let ghost st0 = old(self).model();
        if str_eq(name, "defs") {
            self.in_defs = false;
        }
        if self.depth <= 2 {
            self.open_group = None;
        }
        self.depth = self.depth.saturating_sub(1);
        assert(self.model() =~= end_step(st0, name@));
    }

    /// The summary of everything seen so far, with color tables listed by
    /// count (descending), then by color.
    pub fn build_summary(&self, file_size: u64) -> (r: SvgSummary)
        requires
            self.inv(),
        ensures
            summarizes(r, self.model(), file_size),
    {
        let fill_colors = colors_to_sorted_vec(self.fill_colors.as_slice());
        let stroke_colors = colors_to_sorted_vec(self.stroke_colors.as_slice());
        proof {
            lemma_same_entries(self.fill_colors@, fill_colors@);
            lemma_same_entries(self.stroke_colors@, stroke_colors@);
        }
        SvgSummary {
            file_size_bytes: file_size,
            file_size_human: format_file_size(file_size),
            view_box: copy_view_box(&self.view_box),
            width: copy_opt_string(&self.width),
            height: copy_opt_string(&self.height),
            element_counts: copy_counts(&self.element_counts),
            top_level_groups: copy_groups(&self.top_groups),
            transform_count: self.transform_count,
            fill_colors,
            stroke_colors,
            warnings: copy_strings(&self.warnings),
        }
    }

    /// Whether every counter is at most `b`.
    pub fn counters_within(&self, b: usize) -> (r: bool)
        ensures
            r == self.counters_at_most(b as nat),
    {
        if self.element_counts.total > b || self.transform_count > b {
            return false;
        }
        let mut k: usize = 0;
        while k < self.fill_colors.len()
            invariant
                k <= self.fill_colors.len(),
                forall|j: int| 0 <= j < k ==> #[trigger] self.fill_colors@[j].count <= b,
            decreases self.fill_colors.len() - k,
        {
            if self.fill_colors[k].count > b {
                return false;
            }
            k += 1;
        }
        let mut k: usize = 0;
        while k < self.stroke_colors.len()
            invariant
                k <= self.stroke_colors.len(),
                counts_at_most(self.fill_colors@, b as nat),
                forall|j: int| 0 <= j < k ==> #[trigger] self.stroke_colors@[j].count <= b,
            decreases self.stroke_colors.len() - k,
        {
            if self.stroke_colors[k].count > b {
                return false;
            }
            k += 1;
        }
        true
    }

    /// Analyzes SVG text in one streaming pass: each tag that quick-xml
    /// reads (see `xml_scan`) is taken in, in document order, and the summary
    /// of a file of `file_size` bytes is returned; an XML error ends the pass
    /// with its message, after the tags read before it. When the counters
    /// could overflow on this text (its tags weigh `usize::MAX` or more, or
    /// the counters already leave less room than that), nothing is taken in
    /// and the answer is "SVG too large to count".
    pub fn analyze(&mut self, content: &str, file_size: u64) -> (r: Result<SvgSummary, String>)
        requires
            old(self).inv(),
        ensures
            final(self).inv(),
            ({
                let tags = xml_scan(content@).0;
                let err = xml_scan(content@).1;
                let tw = total_weight(tags);
                if tw < usize::MAX && old(self).counters_at_most((usize::MAX - 1 - tw) as nat) {
                    &&& final(self).model() == fold_tags(old(self).model(), tags)
                    &&& match err {
                        Some(e) => r matches Err(m) && m@ == e,
                        None => r matches Ok(s) && summarizes(s, final(self).model(), file_size),
                    }
                } else {
                    &&& final(self).model() == old(self).model()
                    &&& r matches Err(m) && m@ == too_large_text()
                }
            }),
    {
        let (tags, err) = xml_tags(content);
        let ghost t = tag_views(tags@);
        let tw = match tags_weight(&tags) {
            Some(w) => w,
            None => return Err("SVG too large to count".to_string()),
        };
        if !self.counters_within(usize::MAX - 1 - tw) {
            return Err("SVG too large to count".to_string());
        }
        let ghost st0 = self.model();
        assert(t.take(0) =~= Seq::<TagView>::empty());
        let mut i: usize = 0;
        while i < tags.len()
            invariant
                i <= tags.len(),
                t == tag_views(tags@),
                forall|j: int| 0 <= j < tags@.len() ==> name_leads(#[trigger] tags@[j]),
                tw == total_weight(t),
                tw < usize::MAX,
                self.inv(),
                self.model() == fold_tags(st0, t.take(i as int)),
                self.counters_at_most((usize::MAX - 1 - tw + total_weight(t.take(i as int))) as nat),
            decreases tags.len() - i,
        {
            proof {
                lemma_total_weight_prefix(t, i + 1);
                assert(t.take(i + 1).drop_last() =~= t.take(i as int));
                assert(t.take(i + 1).last() == tag_view(tags@[i as int]));
                assert(name_leads(tags@[i as int]));
            }
            let ghost before = total_weight(t.take(i as int));
            match &tags[i] {
                XmlTag::Start(name, raw) => {
                    let attrs = kept_attributes(&tag_attributes(raw.as_str(), name.as_str()));
                    proof {
                        counters_bound_grows(
                            *self,
                            (usize::MAX - 1 - tw + before) as nat,
                            (usize::MAX - 1 - attr_weight(attr_views(attrs@))) as nat,
                        );
                    }
                    self.process_start_element(name.as_str(), attrs.as_slice(), false);
                },
                XmlTag::Empty(name, raw) => {
                    let attrs = kept_attributes(&tag_attributes(raw.as_str(), name.as_str()));
                    proof {
                        counters_bound_grows(
                            *self,
                            (usize::MAX - 1 - tw + before) as nat,
                            (usize::MAX - 1 - attr_weight(attr_views(attrs@))) as nat,
                        );
                    }
                    self.process_start_element(name.as_str(), attrs.as_slice(), true);
                },
                XmlTag::End(name) => {
                    self.process_end_element(name.as_str());
                },
                XmlTag::Other => {},
            }
            i += 1;
        }
        assert(t.take(tags.len() as int) =~= t);
        match err {
            Some(e) => Err(e),
            None => Ok(self.build_summary(file_size)),
        }
    }
}

} // verus!
