//! A parsed SVG document as plain values (groups, paths, images, texts with
//! their ids and paints), and the hierarchy view built from it.

use vstd::prelude::*;
use super::types::{ColorResult, ElementSummary, TreeNode};
use super::streaming::opt_view;
use crate::text::{decimal, push_decimal, push_str, str_eq, string_of, to_lowercase, unicode_lowercase, is_ascii_text, ascii_lowercase};

verus! {

/// How a shape is painted.
#[derive(Debug, Clone, Copy, PartialEq, Eq)]
pub enum Paint {
    /// A plain color, red, green and blue.
    Color(u8, u8, u8),
    LinearGradient,
    RadialGradient,
    Pattern,
}

/// A path element: its id (empty when it has none), fill and stroke.
#[derive(Debug)]
pub struct SvgPath {
    pub id: String,
    pub fill: Option<Paint>,
    pub stroke: Option<Paint>,
}

/// A group element: its id (empty when it has none) and its children.
#[derive(Debug)]
pub struct SvgGroup {
    pub id: String,
    pub children: Vec<SvgNode>,
}

/// A node of a parsed SVG document.
#[derive(Debug)]
pub enum SvgNode {
    Group(SvgGroup),
    Path(SvgPath),
    /// An image, by id.
    Image(String),
    /// A text element, by id.
    Text(String),
}

/// An id as an option: `None` for the empty id.
pub open spec fn id_view(id: Seq<char>) -> Option<Seq<char>> {
    if id.len() == 0 {
        None
    } else {
        Some(id)
    }
}

/// The number of nodes below a group, at every depth.
pub open spec fn count_all(g: SvgGroup) -> nat
    decreases g, 0int,
{
    count_list(g.children@, g.children@.len() as int)
}

/// The number of nodes among and below the first `k` of `cs`.
pub open spec fn count_list(cs: Seq<SvgNode>, k: int) -> nat
    decreases cs, k,
{
    if k <= 0 || k > cs.len() {
        0
    } else {
        count_list(cs, k - 1) + 1 + match cs[k - 1] {
            SvgNode::Group(h) => count_all(h),
            _ => 0,
        }
    }
}

/// The element count a group shows in the hierarchy view at depth `d`
/// when the view stops at depth `max`: below the limit, each child counts
/// one plus, for a group, its own shown count; at the limit, every node below.
pub open spec fn shown_count(g: SvgGroup, d: nat, max: nat) -> nat
    decreases g, 0int,
{
    if d < max {
        shown_list(g.children@, d, max, g.children@.len() as int)
    } else {
        count_all(g)
    }
}

/// The shown counts of the first `k` children of a group at depth `d`.
pub open spec fn shown_list(cs: Seq<SvgNode>, d: nat, max: nat, k: int) -> nat
    decreases cs, k,
{
    if k <= 0 || k > cs.len() {
        0
    } else {
        shown_list(cs, d, max, k - 1) + match cs[k - 1] {
            SvgNode::Group(h) => shown_count(h, d + 1, max) + 1,
            _ => 1,
        }
    }
}

/// How many of the first `k` nodes are paths without an id.
pub open spec fn unnamed_paths(cs: Seq<SvgNode>, k: int) -> nat
    decreases k,
{
    if k <= 0 || k > cs.len() {
        0
    } else {
        unnamed_paths(cs, k - 1) + match cs[k - 1] {
            SvgNode::Path(p) => if p.id@.len() == 0 { 1nat } else { 0nat },
            _ => 0nat,
        }
    }
}

/// `(n paths)`
pub open spec fn paths_label(n: nat) -> Seq<char> {
    seq!['('] + decimal(n) + " paths)"@
}

/// `(n elements)`
pub open spec fn elements_label(n: nat) -> Seq<char> {
    seq!['('] + decimal(n) + " elements)"@
}

/// A leaf of the view: an element with an id.
pub open spec fn is_leaf(t: TreeNode, kind: Seq<char>, id: Seq<char>) -> bool {
    &&& t.name@ == kind
    &&& opt_view(t.id) == Some(id)
    &&& t.element_count == 0
    &&& t.children@.len() == 0
}

/// A summary leaf: a label and a count, no id.
pub open spec fn is_count_node(t: TreeNode, label: Seq<char>, n: nat) -> bool {
    &&& t.name@ == label
    &&& t.id is None
    &&& t.element_count == n
    &&& t.children@.len() == 0
}

/// `t` is the hierarchy view of group `g`, named `name`, at depth `d`,
/// stopping at depth `max`. Below the limit its children are the views of
/// the child groups and the elements that have ids, in order, then a
/// `(n paths)` node for the paths without id; at the limit, one
/// `(n elements)` node for everything below.
pub open spec fn is_tree_of(t: TreeNode, g: SvgGroup, name: Seq<char>, d: nat, max: nat) -> bool
    decreases g, 0int,
{
    &&& t.name@ == name
    &&& opt_view(t.id) == id_view(g.id@)
    &&& t.element_count == shown_count(g, d, max)
    &&& if d < max {
        let n = unnamed_paths(g.children@, g.children@.len() as int);
        if n > 0 {
            &&& t.children@.len() > 0
            &&& is_count_node(t.children@.last(), paths_label(n), n)
            &&& kids_match(t.children@.drop_last(), g.children@, d, max, g.children@.len() as int)
        } else {
            kids_match(t.children@, g.children@, d, max, g.children@.len() as int)
        }
    } else {
        let n = count_all(g);
        if n > 0 {
            t.children@.len() == 1 && is_count_node(t.children@[0], elements_label(n), n)
        } else {
            t.children@.len() == 0
        }
    }
}

/// `ts` are the views of the first `k` of the children `cs` of a group at
/// depth `d`: one per child group and per element with an id.
pub open spec fn kids_match(ts: Seq<TreeNode>, cs: Seq<SvgNode>, d: nat, max: nat, k: int) -> bool
    decreases cs, k,
{
    if k <= 0 || k > cs.len() {
        ts.len() == 0
    } else {
        match cs[k - 1] {
            SvgNode::Group(h) => {
                &&& ts.len() > 0
                &&& is_tree_of(ts.last(), h, "g"@, d + 1, max)
                &&& kids_match(ts.drop_last(), cs, d, max, k - 1)
            },
            SvgNode::Path(p) => if p.id@.len() > 0 {
                &&& ts.len() > 0
                &&& is_leaf(ts.last(), "path"@, p.id@)
                &&& kids_match(ts.drop_last(), cs, d, max, k - 1)
            } else {
                kids_match(ts, cs, d, max, k - 1)
            },
            SvgNode::Image(id) => if id@.len() > 0 {
                &&& ts.len() > 0
                &&& is_leaf(ts.last(), "image"@, id@)
                &&& kids_match(ts.drop_last(), cs, d, max, k - 1)
            } else {
                kids_match(ts, cs, d, max, k - 1)
            },
            SvgNode::Text(id) => if id@.len() > 0 {
                &&& ts.len() > 0
                &&& is_leaf(ts.last(), "text"@, id@)
                &&& kids_match(ts.drop_last(), cs, d, max, k - 1)
            } else {
                kids_match(ts, cs, d, max, k - 1)
            },
        }
    }
}

proof fn lemma_count_list_grows(cs: Seq<SvgNode>, i: int, k: int)
    requires
        0 <= i <= k <= cs.len(),
    ensures
        count_list(cs, i) <= count_list(cs, k),
    decreases k - i,
{
    if i < k {
        lemma_count_list_grows(cs, i, k - 1);
    }
}

/// A node's count in the hierarchy view is the number of elements below it,
/// whatever the depth limit: below the limit the counts of the children add
/// up to it, and at the limit everything below is counted directly.
pub proof fn shown_count_is_element_count(g: SvgGroup, d: nat, max: nat)
    ensures
        shown_count(g, d, max) == count_all(g),
    decreases g, 0int,
{
    if d < max {
        lemma_shown_list_counts(g.children@, d, max, g.children@.len() as int);
    }
}

proof fn lemma_shown_list_counts(cs: Seq<SvgNode>, d: nat, max: nat, k: int)
    ensures
        shown_list(cs, d, max, k) == count_list(cs, k),
    decreases cs, k,
{
    if 0 < k <= cs.len() {
        lemma_shown_list_counts(cs, d, max, k - 1);
        match cs[k - 1] {
            SvgNode::Group(h) => {
                shown_count_is_element_count(h, d + 1, max);
            },
            _ => {},
        }
    }
}

proof fn lemma_unnamed_bound(cs: Seq<SvgNode>, k: int)
    ensures
        unnamed_paths(cs, k) <= count_list(cs, k),
    decreases k,
{
    if 0 < k <= cs.len() {
        lemma_unnamed_bound(cs, k - 1);
    }
}

/// Counts every node below a group, at every depth.
pub fn count_all_children(g: &SvgGroup) -> (n: usize)
    requires
        count_all(*g) <= usize::MAX,
    ensures
        n == count_all(*g),
    decreases g,
{
    let ghost cs = g.children@;
    let mut n: usize = 0;
    let mut i: usize = 0;
    while i < g.children.len()
        invariant
            i <= g.children.len(),
            cs == g.children@,
            count_all(*g) <= usize::MAX,
            n == count_list(cs, i as int),
        decreases g.children.len() - i,
    {
        proof {
            lemma_count_list_grows(cs, i + 1, cs.len() as int);
        }
        match &g.children[i] {
            SvgNode::Group(h) => {
                let m = count_all_children(h);
                n = n + 1 + m;
            },
            _ => {
                n = n + 1;
            },
        }
        i += 1;
    }
    n
}

fn count_label(n: usize, paths: bool) -> (r: String)
    ensures
        r@ == if paths { paths_label(n as nat) } else { elements_label(n as nat) },
{
    let mut out: Vec<char> = Vec::new();
    out.push('(');
    push_decimal(&mut out, n as u64);
    if paths {
        push_str(&mut out, " paths)");
    } else {
        push_str(&mut out, " elements)");
    }
    assert(out@ =~= if paths { paths_label(n as nat) } else { elements_label(n as nat) });
    string_of(out.as_slice())
}

fn leaf(kind: &str, id: &String) -> (t: TreeNode)
    ensures
        is_leaf(t, kind@, id@),
{
    TreeNode { name: kind.to_string(), id: Some(id.clone()), element_count: 0, children: Vec::new() }
}

/// Builds the hierarchy view of group `g`, named `name`, at depth `d` of at
/// most `max` (see `is_tree_of`). Its element count is the number of all
/// elements below `g`, groups included, whatever the depth.
pub fn build_tree_node(g: &SvgGroup, name: &str, d: usize, max: usize) -> (t: TreeNode)
    requires
        count_all(*g) < usize::MAX,
    ensures
        is_tree_of(t, *g, name@, d as nat, max as nat),
        t.element_count == count_all(*g),
    decreases g,
{
    proof {
        shown_count_is_element_count(*g, d as nat, max as nat);
    }
    let id = if g.id.as_str().is_empty() {
        None
    } else {
        Some(g.id.clone())
    };
    let ghost cs = g.children@;
    let mut children: Vec<TreeNode> = Vec::new();
    let mut count: usize = 0;
    if d < max {
        let mut unnamed: usize = 0;
        let mut i: usize = 0;
        while i < g.children.len()
            invariant
                i <= g.children.len(),
                cs == g.children@,
                d < max,
                count_all(*g) < usize::MAX,
                count == shown_list(cs, d as nat, max as nat, i as int),
                unnamed == unnamed_paths(cs, i as int),
                kids_match(children@, cs, d as nat, max as nat, i as int),
            decreases g.children.len() - i,
        {
            proof {
                lemma_count_list_grows(cs, i + 1, cs.len() as int);
                lemma_shown_list_counts(cs, d as nat, max as nat, i + 1);
                lemma_unnamed_bound(cs, i + 1);
            }
            let ghost before = children@;
            match &g.children[i] {
                SvgNode::Group(h) => {
                    let child = build_tree_node(h, "g", d + 1, max);
                    count = count + child.element_count + 1;
                    children.push(child);
                    assert(children@.drop_last() =~= before);
                },
                SvgNode::Path(p) => {
                    count = count + 1;
                    if p.id.as_str().is_empty() {
                        unnamed = unnamed + 1;
                    } else {
                        children.push(leaf("path", &p.id));
                        assert(children@.drop_last() =~= before);
                    }
                },
                SvgNode::Image(img) => {
                    count = count + 1;
                    if !img.as_str().is_empty() {
                        children.push(leaf("image", img));
                        assert(children@.drop_last() =~= before);
                    }
                },
                SvgNode::Text(txt) => {
                    count = count + 1;
                    if !txt.as_str().is_empty() {
                        children.push(leaf("text", txt));
                        assert(children@.drop_last() =~= before);
                    }
                },
            }
            i += 1;
        }
        if unnamed > 0 {
            let ghost before = children@;
            children.push(TreeNode {
                name: count_label(unnamed, true),
                id: None,
                element_count: unnamed,
                children: Vec::new(),
            });
            assert(children@.drop_last() =~= before);
        }
    } else {
        proof {
            lemma_count_list_grows(cs, cs.len() as int, cs.len() as int);
        }
        count = count_all_children(g);
        if count > 0 {
            children.push(TreeNode {
                name: count_label(count, false),
                id: None,
                element_count: count,
                children: Vec::new(),
            });
        }
    }
    TreeNode { name: name.to_string(), id, element_count: count, children }
}

/// Builds the hierarchy view of a document's root group, named `svg`,
/// going `max_depth` levels down (without limit when `None`).
pub fn build_tree(root: &SvgGroup, max_depth: Option<usize>) -> (t: TreeNode)
    requires
        count_all(*root) < usize::MAX,
    ensures
        is_tree_of(
            t,
            *root,
            "svg"@,
            0,
            match max_depth {
                Some(m) => m as nat,
                None => usize::MAX as nat,
            },
        ),
{
    let max = match max_depth {
        Some(m) => m,
        None => usize::MAX,
    };
    build_tree_node(root, "svg", 0, max)
}

/// The lowercase hexadecimal digit for `d` below 16.
pub open spec fn hex_digit(d: int) -> char {
    if d < 10 {
        (('0' as u32) + d) as char
    } else {
        (('a' as u32) + d - 10) as char
    }
}

/// A byte as two lowercase hexadecimal digits.
pub open spec fn hex_byte(b: u8) -> Seq<char> {
    seq![hex_digit((b / 16) as int), hex_digit((b % 16) as int)]
}

/// The text of a paint: `#rrggbb` for a color, else the kind of paint.
pub open spec fn paint_text(p: Paint) -> Seq<char> {
    match p {
        Paint::Color(r, g, b) => seq!['#'] + hex_byte(r) + hex_byte(g) + hex_byte(b),
        Paint::LinearGradient => "linear-gradient"@,
        Paint::RadialGradient => "radial-gradient"@,
        Paint::Pattern => "pattern"@,
    }
}

fn hex_char(d: u8) -> (c: char)
    requires
        d < 16,
    ensures
        c == hex_digit(d as int),
{
    if d < 10 {
        let c = (48 + d) as char;
        c
    } else {
        let c = (87 + d) as char;
        c
    }
}

/// Describes a paint as text: `#rrggbb` (lowercase hex) for a color,
/// `linear-gradient`, `radial-gradient` or `pattern` otherwise.
pub fn paint_to_string(paint: &Paint) -> (r: String)
    ensures
        r@ == paint_text(*paint),
{
    match paint {
        Paint::Color(r, g, b) => {
            let mut out: Vec<char> = Vec::new();
            out.push('#');
            out.push(hex_char(*r / 16));
            out.push(hex_char(*r % 16));
            out.push(hex_char(*g / 16));
            out.push(hex_char(*g % 16));
            out.push(hex_char(*b / 16));
            out.push(hex_char(*b % 16));
            assert(out@ =~= paint_text(*paint));
            string_of(out.as_slice())
        },
        Paint::LinearGradient => "linear-gradient".to_string(),
        Paint::RadialGradient => "radial-gradient".to_string(),
        Paint::Pattern => "pattern".to_string(),
    }
}

/// The text of an optional paint.
pub open spec fn opt_paint_text(p: Option<Paint>) -> Option<Seq<char>> {
    match p {
        Some(q) => Some(paint_text(q)),
        None => None,
    }
}

/// A summary entry as plain values: element type, id and fill.
pub open spec fn summary_view(e: ElementSummary) -> (Seq<char>, Option<Seq<char>>, Option<Seq<char>>) {
    (e.element_type@, opt_view(e.id), opt_view(e.fill))
}

/// The views of a list of summary entries.
pub open spec fn summary_views(v: Seq<ElementSummary>) -> Seq<(Seq<char>, Option<Seq<char>>, Option<Seq<char>>)> {
    v.map_values(|e: ElementSummary| summary_view(e))
}

/// A path's fill or stroke, lowercased, is the queried color.
pub open spec fn path_has_color(p: SvgPath, color: Seq<char>) -> bool {
    ||| (p.fill matches Some(f) && unicode_lowercase(paint_text(f)) == color)
    ||| (p.stroke matches Some(s) && unicode_lowercase(paint_text(s)) == color)
}

/// The paths below group `g` whose fill or stroke is `color`, in document
/// order, as summary entries.
pub open spec fn color_matches(g: SvgGroup, color: Seq<char>) -> Seq<(Seq<char>, Option<Seq<char>>, Option<Seq<char>>)>
    decreases g, 0int,
{
    color_matches_list(g.children@, color, g.children@.len() as int)
}

/// The matching paths among and below the first `k` nodes.
pub open spec fn color_matches_list(cs: Seq<SvgNode>, color: Seq<char>, k: int) -> Seq<(Seq<char>, Option<Seq<char>>, Option<Seq<char>>)>
    decreases cs, k,
{
    if k <= 0 || k > cs.len() {
        Seq::empty()
    } else {
        color_matches_list(cs, color, k - 1) + match cs[k - 1] {
            SvgNode::Group(h) => color_matches(h, color),
            SvgNode::Path(p) => if path_has_color(p, color) {
                seq![("path"@, id_view(p.id@), opt_paint_text(p.fill))]
            } else {
                Seq::empty()
            },
            _ => Seq::empty(),
        }
    }
}

/// The first `limit` items of `s` (all of them when there are fewer).
pub open spec fn capped<A>(s: Seq<A>, limit: nat) -> Seq<A> {
    if s.len() <= limit {
        s
    } else {
        s.take(limit as int)
    }
}

proof fn lemma_capped_append<A>(a: Seq<A>, b: Seq<A>, c: Seq<A>, limit: nat)
    requires
        a.len() <= limit,
    ensures
        capped(capped(a + b, limit) + c, limit) == capped(a + b + c, limit),
{
    if (a + b).len() <= limit {
    } else {
        assert(capped(a + b, limit).len() == limit);
        assert((capped(a + b, limit) + c).take(limit as int) =~= (a + b + c).take(limit as int));
    }
}

fn opt_paint_string(p: &Option<Paint>) -> (r: Option<String>)
    ensures
        opt_view(r) == opt_paint_text(*p),
{
    match p {
        Some(q) => Some(paint_to_string(q)),
        None => None,
    }
}

fn paint_is(p: &Option<Paint>, color: &str) -> (r: bool)
    ensures
        r == (*p matches Some(f) && unicode_lowercase(paint_text(f)) == color@),
{
    match p {
        Some(q) => {
            let text = paint_to_string(q);
            let lower = to_lowercase(text.as_str());
            str_eq(lower.as_str(), color)
        },
        None => false,
    }
}

fn walk_tree_for_color(g: &SvgGroup, color: &str, elements: &mut Vec<ElementSummary>, limit: usize)
    ensures
        old(elements)@.len() <= limit ==> summary_views(final(elements)@) == capped(
            summary_views(old(elements)@) + color_matches(*g, color@),
            limit as nat,
        ),
        old(elements)@.len() > limit ==> final(elements)@ == old(elements)@,
    decreases g,
{
    if elements.len() >= limit {
        proof {
            if old(elements)@.len() == limit {
                assert(capped(summary_views(old(elements)@) + color_matches(*g, color@), limit as nat)
                    =~= summary_views(old(elements)@));
            }
        }
        return;
    }
    let ghost cs = g.children@;
    let ghost start = summary_views(elements@);
    let mut i: usize = 0;
    while i < g.children.len()
        invariant
            i <= g.children.len(),
            cs == g.children@,
            start.len() < limit,
            summary_views(elements@) == capped(start + color_matches_list(cs, color@, i as int), limit as nat),
        ensures
            summary_views(elements@) == capped(start + color_matches_list(cs, color@, cs.len() as int), limit as nat),
        decreases g.children.len() - i,
    {
        if elements.len() >= limit {
            proof {
                assert forall|j: int| i <= j <= cs.len() implies capped(start + color_matches_list(cs, color@, j), limit as nat)
                    == summary_views(elements@) by {
                    lemma_matches_prefix(cs, color@, i as int, j);
                    let rest = color_matches_list(cs, color@, j).skip(color_matches_list(cs, color@, i as int).len() as int);
                    assert(color_matches_list(cs, color@, j) =~= color_matches_list(cs, color@, i as int) + rest);
                    lemma_capped_append(start, color_matches_list(cs, color@, i as int), rest, limit as nat);
                    assert(start + color_matches_list(cs, color@, j) =~= start + color_matches_list(cs, color@, i as int) + rest);
                    assert(capped(start + color_matches_list(cs, color@, i as int), limit as nat).len() == limit);
                    assert(capped(capped(start + color_matches_list(cs, color@, i as int), limit as nat) + rest, limit as nat)
                        =~= capped(start + color_matches_list(cs, color@, i as int), limit as nat));
                }
            }
            break;
        }
        let ghost before = elements@;
        match &g.children[i] {
            SvgNode::Group(h) => {
                walk_tree_for_color(h, color, elements, limit);
                proof {
                    lemma_capped_append(start, color_matches_list(cs, color@, i as int), color_matches(*h, color@), limit as nat);
                }
            },
            SvgNode::Path(p) => {
                if paint_is(&p.fill, color) || paint_is(&p.stroke, color) {
                    let e = ElementSummary {
                        element_type: "path".to_string(),
                        id: if p.id.as_str().is_empty() { None } else { Some(p.id.clone()) },
                        fill: opt_paint_string(&p.fill),
                    };
                    elements.push(e);
                    proof {
                        let item = seq![("path"@, id_view(p.id@), opt_paint_text(p.fill))];
                        assert(summary_views(elements@) =~= summary_views(before) + item);
                        lemma_capped_append(start, color_matches_list(cs, color@, i as int), item, limit as nat);
                    }
                } else {
                    assert(color_matches_list(cs, color@, i + 1) =~= color_matches_list(cs, color@, i as int));
                }
            },
            _ => {
                assert(color_matches_list(cs, color@, i + 1) =~= color_matches_list(cs, color@, i as int));
            },
        }
        i += 1;
    }
}

proof fn lemma_matches_prefix(cs: Seq<SvgNode>, color: Seq<char>, i: int, j: int)
    requires
        0 <= i <= j <= cs.len(),
    ensures
        color_matches_list(cs, color, i).len() <= color_matches_list(cs, color, j).len(),
        color_matches_list(cs, color, j).take(color_matches_list(cs, color, i).len() as int)
            == color_matches_list(cs, color, i),
    decreases j - i,
{
    if i < j {
        lemma_matches_prefix(cs, color, i, j - 1);
        let a = color_matches_list(cs, color, i);
        let b = color_matches_list(cs, color, j - 1);
        let c = color_matches_list(cs, color, j);
        assert(c.take(b.len() as int) =~= b);
        assert(c.take(a.len() as int) =~= b.take(a.len() as int));
    } else {
        assert(color_matches_list(cs, color, i).take(color_matches_list(cs, color, i).len() as int)
            =~= color_matches_list(cs, color, i));
    }
}

/// Finds the paths whose fill or stroke (lowercased) is the queried color
/// (lowercased), in document order, at most `limit` of them.
pub fn query_color(root: &SvgGroup, color: &str, limit: usize) -> (r: ColorResult)
    ensures
        r.query_color@ == color@,
        summary_views(r.elements@) == capped(color_matches(*root, unicode_lowercase(color@)), limit as nat),
        is_ascii_text(color@) ==> summary_views(r.elements@) == capped(
            color_matches(*root, ascii_lowercase(color@)),
            limit as nat,
        ),
        r.match_count == r.elements@.len(),
{
    let normalized = to_lowercase(color);
    let mut elements: Vec<ElementSummary> = Vec::new();
    assert(summary_views(elements@) =~= Seq::<(Seq<char>, Option<Seq<char>>, Option<Seq<char>>)>::empty());
    walk_tree_for_color(root, normalized.as_str(), &mut elements, limit);
    assert(Seq::<(Seq<char>, Option<Seq<char>>, Option<Seq<char>>)>::empty() + color_matches(*root, normalized@)
        =~= color_matches(*root, normalized@));
    let n = elements.len();
    ColorResult { query_color: color.to_string(), match_count: n, elements }
}

/// The first group, in document order (a group before its children), whose
/// id is `id`, as the positions of the children leading to it from `g`
/// (empty for `g` itself).
pub open spec fn group_path(g: SvgGroup, id: Seq<char>) -> Option<Seq<int>>
    decreases g, 0int,
{
    if g.id@ == id {
        Some(Seq::empty())
    } else {
        group_path_from(g.children@, id, 0)
    }
}

/// The first matching group among and below the children `cs` from
/// position `i` on.
pub open spec fn group_path_from(cs: Seq<SvgNode>, id: Seq<char>, i: int) -> Option<Seq<int>>
    decreases cs, cs.len() - i,
{
    if i < 0 || i >= cs.len() {
        None
    } else {
        match cs[i] {
            SvgNode::Group(h) => match group_path(h, id) {
                Some(p) => Some(seq![i] + p),
                None => group_path_from(cs, id, i + 1),
            },
            _ => group_path_from(cs, id, i + 1),
        }
    }
}

/// Finds the first group whose id is `id` (see `group_path`).
pub fn find_group_path(g: &SvgGroup, id: &str) -> (r: Option<Vec<usize>>)
    ensures
        match r {
            Some(p) => group_path(*g, id@) == Some(p@.map_values(|k: usize| k as int)),
            None => group_path(*g, id@) is None,
        },
    decreases g,
{
    if str_eq(g.id.as_str(), id) {
        let r: Vec<usize> = Vec::new();
        assert(r@.map_values(|k: usize| k as int) =~= Seq::<int>::empty());
        return Some(r);
    }
    let ghost cs = g.children@;
    let mut i: usize = 0;
    while i < g.children.len()
        invariant
            i <= g.children.len(),
            cs == g.children@,
            g.id@ != id@,
            group_path(*g, id@) == group_path_from(cs, id@, i as int),
        decreases g.children.len() - i,
    {
        match &g.children[i] {
            SvgNode::Group(h) => {
                match find_group_path(h, id) {
                    Some(p) => {
                        return Some(prepend(i, &p));
                    },
                    None => {},
                }
            },
            _ => {},
        }
        i += 1;
    }
    None
}

/// The group that a path of child positions leads to from `g`, if every
/// step lands on a group.
pub open spec fn group_at_path(g: SvgGroup, path: Seq<int>) -> Option<SvgGroup>
    decreases path.len(),
{
    if path.len() == 0 {
        Some(g)
    } else if 0 <= path[0] < g.children@.len() {
        match g.children@[path[0]] {
            SvgNode::Group(h) => group_at_path(h, path.drop_first()),
            _ => None,
        }
    } else {
        None
    }
}

/// Follows a path of child positions from `g` (see `group_at_path`).
pub fn group_at<'a>(g: &'a SvgGroup, path: &[usize]) -> (r: Option<&'a SvgGroup>)
    ensures
        match r {
            Some(h) => group_at_path(*g, path@.map_values(|k: usize| k as int)) == Some(*h),
            None => group_at_path(*g, path@.map_values(|k: usize| k as int)) is None,
        },
{
    let mut cur: &SvgGroup = g;
    let mut k: usize = 0;
    let ghost whole = path@.map_values(|k: usize| k as int);
    assert(whole.skip(0) =~= whole);
    while k < path.len()
        invariant
            k <= path.len(),
            whole == path@.map_values(|k: usize| k as int),
            group_at_path(*g, whole) == group_at_path(*cur, whole.skip(k as int)),
        decreases path.len() - k,
    {
        let step = path[k];
        assert(whole.skip(k as int)[0] == step as int);
        assert(whole.skip(k as int).drop_first() =~= whole.skip(k + 1));
        if step >= cur.children.len() {
            return None;
        }
        match &cur.children[step] {
            SvgNode::Group(h) => {
                cur = h;
            },
            _ => {
                return None;
            },
        }
        k += 1;
    }
    assert(whole.skip(path.len() as int) =~= Seq::<int>::empty());
    Some(cur)
}

/// The number of paths below a group, at every depth.
pub open spec fn paths_below(g: SvgGroup) -> nat
    decreases g, 0int,
{
    paths_list(g.children@, g.children@.len() as int)
}

/// The number of paths among and below the first `k` nodes.
pub open spec fn paths_list(cs: Seq<SvgNode>, k: int) -> nat
    decreases cs, k,
{
    if k <= 0 || k > cs.len() {
        0
    } else {
        paths_list(cs, k - 1) + match cs[k - 1] {
            SvgNode::Group(h) => paths_below(h),
            SvgNode::Path(_) => 1,
            _ => 0,
        }
    }
}

/// The number of groups below a group, at every depth.
pub open spec fn groups_below(g: SvgGroup) -> nat
    decreases g, 0int,
{
    groups_list(g.children@, g.children@.len() as int)
}

/// The number of groups among and below the first `k` nodes.
pub open spec fn groups_list(cs: Seq<SvgNode>, k: int) -> nat
    decreases cs, k,
{
    if k <= 0 || k > cs.len() {
        0
    } else {
        groups_list(cs, k - 1) + match cs[k - 1] {
            SvgNode::Group(h) => 1 + groups_below(h),
            _ => 0,
        }
    }
}

/// The paint texts of a path's fill and stroke.
pub open spec fn path_colors(p: SvgPath) -> Set<Seq<char>> {
    (match p.fill {
        Some(f) => set![paint_text(f)],
        None => Set::empty(),
    }).union(match p.stroke {
        Some(st) => set![paint_text(st)],
        None => Set::empty(),
    })
}

/// The fill and stroke colors of the paths below a group, at every depth.
pub open spec fn colors_below(g: SvgGroup) -> Set<Seq<char>>
    decreases g, 0int,
{
    colors_list(g.children@, g.children@.len() as int)
}

/// The colors of the paths among and below the first `k` nodes.
pub open spec fn colors_list(cs: Seq<SvgNode>, k: int) -> Set<Seq<char>>
    decreases cs, k,
{
    if k <= 0 || k > cs.len() {
        Set::empty()
    } else {
        colors_list(cs, k - 1).union(match cs[k - 1] {
            SvgNode::Group(h) => colors_below(h),
            SvgNode::Path(p) => path_colors(p),
            _ => Set::empty(),
        })
    }
}

/// The strings as a set.
pub open spec fn string_set(v: Seq<String>) -> Set<Seq<char>> {
    Set::new(|c: Seq<char>| exists|i: int| 0 <= i < v.len() && v[i]@ == c)
}

/// No string is listed twice.
pub open spec fn distinct_strings(v: Seq<String>) -> bool {
    forall|i: int, j: int| 0 <= i < j < v.len() ==> #[trigger] v[i]@ != #[trigger] v[j]@
}

/// Statistics of a layer: every node below it, its paths, its nested
/// groups, and the colors its paths use (each once, in no promised order).
#[derive(Debug)]
pub struct LayerCounts {
    pub element_count: usize,
    pub path_count: usize,
    pub nested_groups: usize,
    pub colors_used: Vec<String>,
}

proof fn lemma_below_bounds(g: SvgGroup)
    ensures
        paths_below(g) <= count_all(g),
        groups_below(g) <= count_all(g),
    decreases g, 0int,
{
    lemma_list_bounds(g.children@, g.children@.len() as int);
}

proof fn lemma_list_bounds(cs: Seq<SvgNode>, k: int)
    ensures
        paths_list(cs, k) <= count_list(cs, k),
        groups_list(cs, k) <= count_list(cs, k),
    decreases cs, k,
{
    if 0 < k <= cs.len() {
        lemma_list_bounds(cs, k - 1);
        match cs[k - 1] {
            SvgNode::Group(h) => {
                lemma_below_bounds(h);
            },
            _ => {},
        }
    }
}

proof fn lemma_lists_grow(cs: Seq<SvgNode>, i: int, k: int)
    requires
        0 <= i <= k <= cs.len(),
    ensures
        count_list(cs, i) <= count_list(cs, k),
        paths_list(cs, i) <= paths_list(cs, k),
        groups_list(cs, i) <= groups_list(cs, k),
    decreases k - i,
{
    if i < k {
        lemma_lists_grow(cs, i, k - 1);
    }
}

/// Adds a color to a list unless it is listed already.
fn add_color(colors: &mut Vec<String>, c: String)
    requires
        distinct_strings(old(colors)@),
    ensures
        distinct_strings(final(colors)@),
        string_set(final(colors)@) == string_set(old(colors)@).insert(c@),
{
    let mut i: usize = 0;
    while i < colors.len()
        invariant
            i <= colors.len(),
            colors@ == old(colors)@,
            distinct_strings(colors@),
            forall|j: int| 0 <= j < i ==> #[trigger] colors@[j]@ != c@,
        decreases colors.len() - i,
    {
        if colors[i] == c {
            assert(string_set(colors@) =~= string_set(old(colors)@).insert(c@));
            return;
        }
        i += 1;
    }
    let ghost before = colors@;
    colors.push(c);
    assert forall|x: Seq<char>| #[trigger] string_set(colors@).contains(x) <==> string_set(before).insert(c@).contains(x) by {
        if string_set(before).contains(x) {
            let j = choose|j: int| 0 <= j < before.len() && before[j]@ == x;
            assert(colors@[j]@ == x);
        }
        if x == c@ {
            assert(colors@[before.len() as int]@ == x);
        }
        if string_set(colors@).contains(x) {
            let j = choose|j: int| 0 <= j < colors@.len() && colors@[j]@ == x;
            if j < before.len() {
                assert(before[j]@ == x);
            }
        }
    }
    assert(string_set(colors@) =~= string_set(before).insert(c@));
}

fn add_path_colors(colors: &mut Vec<String>, p: &SvgPath)
    requires
        distinct_strings(old(colors)@),
    ensures
        distinct_strings(final(colors)@),
        string_set(final(colors)@) == string_set(old(colors)@).union(path_colors(*p)),
{
    match &p.fill {
        Some(f) => add_color(colors, paint_to_string(f)),
        None => {},
    }
    match &p.stroke {
        Some(st) => add_color(colors, paint_to_string(st)),
        None => {},
    }
    assert(string_set(colors@) =~= string_set(old(colors)@).union(path_colors(*p)));
}

fn count_layer_stats(
    g: &SvgGroup,
    path_count: &mut usize,
    nested_groups: &mut usize,
    colors: &mut Vec<String>,
    total_count: &mut usize,
)
    requires
        *old(total_count) + count_all(*g) <= usize::MAX,
        *old(path_count) + paths_below(*g) <= usize::MAX,
        *old(nested_groups) + groups_below(*g) <= usize::MAX,
        distinct_strings(old(colors)@),
    ensures
        *final(total_count) == *old(total_count) + count_all(*g),
        *final(path_count) == *old(path_count) + paths_below(*g),
        *final(nested_groups) == *old(nested_groups) + groups_below(*g),
        distinct_strings(final(colors)@),
        string_set(final(colors)@) == string_set(old(colors)@).union(colors_below(*g)),
    decreases g,
{
    let ghost cs = g.children@;
    let ghost t0 = *total_count;
    let ghost p0 = *path_count;
    let ghost n0 = *nested_groups;
    let ghost c0 = string_set(colors@);
    assert(c0.union(colors_list(cs, 0)) =~= c0);
    let mut i: usize = 0;
    while i < g.children.len()
        invariant
            i <= g.children.len(),
            cs == g.children@,
            t0 + count_all(*g) <= usize::MAX,
            p0 + paths_below(*g) <= usize::MAX,
            n0 + groups_below(*g) <= usize::MAX,
            *total_count == t0 + count_list(cs, i as int),
            *path_count == p0 + paths_list(cs, i as int),
            *nested_groups == n0 + groups_list(cs, i as int),
            distinct_strings(colors@),
            string_set(colors@) == c0.union(colors_list(cs, i as int)),
        decreases g.children.len() - i,
    {
        proof {
            lemma_lists_grow(cs, i + 1, cs.len() as int);
        }
        *total_count = *total_count + 1;
        match &g.children[i] {
            SvgNode::Group(h) => {
                *nested_groups = *nested_groups + 1;
                count_layer_stats(h, path_count, nested_groups, colors, total_count);
            },
            SvgNode::Path(p) => {
                *path_count = *path_count + 1;
                add_path_colors(colors, p);
            },
            _ => {},
        }
        i += 1;
        assert(string_set(colors@) =~= c0.union(colors_list(cs, i as int)));
    }
}

/// Counts what lies below a layer: nodes, paths, nested groups, and the
/// distinct fill and stroke colors of its paths.
pub fn layer_stats(g: &SvgGroup) -> (r: LayerCounts)
    requires
        count_all(*g) <= usize::MAX,
    ensures
        r.element_count == count_all(*g),
        r.path_count == paths_below(*g),
        r.nested_groups == groups_below(*g),
        distinct_strings(r.colors_used@),
        string_set(r.colors_used@) == colors_below(*g),
{
    proof {
        lemma_below_bounds(*g);
    }
    let mut path_count: usize = 0;
    let mut nested_groups: usize = 0;
    let mut colors: Vec<String> = Vec::new();
    let mut total_count: usize = 0;
    assert(string_set(colors@) =~= Set::<Seq<char>>::empty());
    count_layer_stats(g, &mut path_count, &mut nested_groups, &mut colors, &mut total_count);
    assert(string_set(colors@) =~= colors_below(*g));
    LayerCounts { element_count: total_count, path_count, nested_groups, colors_used: colors }
}

/// The first element, in document order, whose id is `id`: a group (before
/// its children), a path, an image or a text, as the positions of the
/// children leading to it from `g` (empty for `g` itself).
pub open spec fn element_path(g: SvgGroup, id: Seq<char>) -> Option<Seq<int>>
    decreases g, 0int,
{
    if g.id@ == id {
        Some(Seq::empty())
    } else {
        element_path_from(g.children@, id, 0)
    }
}

/// The id of a node that is not a group.
pub open spec fn leaf_id(n: SvgNode) -> Option<Seq<char>> {
    match n {
        SvgNode::Group(_) => None,
        SvgNode::Path(p) => Some(p.id@),
        SvgNode::Image(id) => Some(id@),
        SvgNode::Text(id) => Some(id@),
    }
}

/// The first matching element among and below the children `cs` from
/// position `i` on.
pub open spec fn element_path_from(cs: Seq<SvgNode>, id: Seq<char>, i: int) -> Option<Seq<int>>
    decreases cs, cs.len() - i,
{
    if i < 0 || i >= cs.len() {
        None
    } else {
        match cs[i] {
            SvgNode::Group(h) => match element_path(h, id) {
                Some(p) => Some(seq![i] + p),
                None => element_path_from(cs, id, i + 1),
            },
            _ => if leaf_id(cs[i]) == Some(id) {
                Some(seq![i])
            } else {
                element_path_from(cs, id, i + 1)
            },
        }
    }
}

fn single(i: usize) -> (r: Vec<usize>)
    ensures
        r@.map_values(|k: usize| k as int) == seq![i as int],
{
    let mut r: Vec<usize> = Vec::new();
    r.push(i);
    assert(r@.map_values(|k: usize| k as int) =~= seq![i as int]);
    r
}

fn prepend(i: usize, p: &Vec<usize>) -> (r: Vec<usize>)
    ensures
        r@.map_values(|k: usize| k as int) == seq![i as int] + p@.map_values(|k: usize| k as int),
{
    let mut r: Vec<usize> = Vec::new();
    r.push(i);
    let mut k: usize = 0;
    while k < p.len()
        invariant
            k <= p.len(),
            r@.len() == k + 1,
            r@[0] == i,
            forall|j: int| 0 <= j < k ==> #[trigger] r@[j + 1] == p@[j],
        decreases p.len() - k,
    {
        r.push(p[k]);
        k += 1;
    }
    assert forall|j: int| 1 <= j < r@.len() implies r@[j] == p@[j - 1] by {
        assert(r@[(j - 1) + 1] == p@[j - 1]);
    }
    assert(r@.map_values(|k: usize| k as int) =~= seq![i as int] + p@.map_values(|k: usize| k as int));
    r
}

/// Finds the first element whose id is `id` (see `element_path`).
pub fn find_element_path(g: &SvgGroup, id: &str) -> (r: Option<Vec<usize>>)
    ensures
        match r {
            Some(p) => element_path(*g, id@) == Some(p@.map_values(|k: usize| k as int)),
            None => element_path(*g, id@) is None,
        },
    decreases g,
{
    if str_eq(g.id.as_str(), id) {
        let r: Vec<usize> = Vec::new();
        assert(r@.map_values(|k: usize| k as int) =~= Seq::<int>::empty());
        return Some(r);
    }
    let ghost cs = g.children@;
    let mut i: usize = 0;
    while i < g.children.len()
        invariant
            i <= g.children.len(),
            cs == g.children@,
            g.id@ != id@,
            element_path(*g, id@) == element_path_from(cs, id@, i as int),
        decreases g.children.len() - i,
    {
        let found = match &g.children[i] {
            SvgNode::Group(h) => match find_element_path(h, id) {
                Some(p) => Some(prepend(i, &p)),
                None => None,
            },
            SvgNode::Path(p) => if str_eq(p.id.as_str(), id) { Some(single(i)) } else { None },
            SvgNode::Image(x) => if str_eq(x.as_str(), id) { Some(single(i)) } else { None },
            SvgNode::Text(x) => if str_eq(x.as_str(), id) { Some(single(i)) } else { None },
        };
        match found {
            Some(r) => {
                return Some(r);
            },
            None => {},
        }
        i += 1;
    }
    None
}

/// A child as a summary entry: its element type, its id when it has one,
/// and for a path its fill.
pub open spec fn child_view(n: SvgNode) -> (Seq<char>, Option<Seq<char>>, Option<Seq<char>>) {
    match n {
        SvgNode::Group(h) => ("g"@, id_view(h.id@), None),
        SvgNode::Path(p) => ("path"@, id_view(p.id@), opt_paint_text(p.fill)),
        SvgNode::Image(id) => ("image"@, id_view(id@), None),
        SvgNode::Text(id) => ("text"@, id_view(id@), None),
    }
}

fn id_string(id: &String) -> (r: Option<String>)
    ensures
        opt_view(r) == id_view(id@),
{
    if id.as_str().is_empty() {
        None
    } else {
        Some(id.clone())
    }
}

/// Summary entries for the first `limit` children of a group.
pub fn child_summaries(g: &SvgGroup, limit: usize) -> (r: Vec<ElementSummary>)
    ensures
        summary_views(r@) == capped(g.children@.map_values(|n: SvgNode| child_view(n)), limit as nat),
{
    let ghost all = g.children@.map_values(|n: SvgNode| child_view(n));
    let n = if g.children.len() < limit { g.children.len() } else { limit };
    let mut r: Vec<ElementSummary> = Vec::new();
    let mut i: usize = 0;
    while i < n
        invariant
            i <= n,
            n <= g.children@.len(),
            all == g.children@.map_values(|n: SvgNode| child_view(n)),
            summary_views(r@) == all.take(i as int),
        decreases n - i,
    {
        let e = match &g.children[i] {
            SvgNode::Group(h) => ElementSummary { element_type: "g".to_string(), id: id_string(&h.id), fill: None },
            SvgNode::Path(p) => ElementSummary {
                element_type: "path".to_string(),
                id: id_string(&p.id),
                fill: opt_paint_string(&p.fill),
            },
            SvgNode::Image(x) => ElementSummary { element_type: "image".to_string(), id: id_string(x), fill: None },
            SvgNode::Text(x) => ElementSummary { element_type: "text".to_string(), id: id_string(x), fill: None },
        };
        let ghost before = r@;
        r.push(e);
        assert(summary_views(r@) =~= summary_views(before).push(summary_view(e)));
        assert(all.take(i + 1) =~= all.take(i as int).push(all[i as int]));
        i += 1;
    }
    assert(all.take(n as int) =~= capped(all, limit as nat));
    r
}

/// The positions of the paths below a group, in document order.
pub open spec fn path_positions(g: SvgGroup) -> Seq<Seq<int>>
    decreases g, 0int,
{
    positions_list(g.children@, g.children@.len() as int)
}

/// The positions of the paths among and below the first `k` nodes.
pub open spec fn positions_list(cs: Seq<SvgNode>, k: int) -> Seq<Seq<int>>
    decreases cs, k,
{
    if k <= 0 || k > cs.len() {
        Seq::empty()
    } else {
        positions_list(cs, k - 1) + match cs[k - 1] {
            SvgNode::Group(h) => path_positions(h).map_values(|p: Seq<int>| seq![k - 1] + p),
            SvgNode::Path(_) => seq![seq![k - 1]],
            _ => Seq::empty(),
        }
    }
}

/// Positions as integer sequences.
pub open spec fn position_views(v: Seq<Vec<usize>>) -> Seq<Seq<int>> {
    v.map_values(|p: Vec<usize>| p@.map_values(|k: usize| k as int))
}

/// Lists the positions of all paths below a group, in document order.
pub fn collect_path_positions(g: &SvgGroup) -> (r: Vec<Vec<usize>>)
    ensures
        position_views(r@) == path_positions(*g),
    decreases g,
{
    let ghost cs = g.children@;
    let mut out: Vec<Vec<usize>> = Vec::new();
    assert(position_views(out@) =~= positions_list(cs, 0));
    let mut i: usize = 0;
    while i < g.children.len()
        invariant
            i <= g.children.len(),
            cs == g.children@,
            position_views(out@) == positions_list(cs, i as int),
        decreases g.children.len() - i,
    {
        let ghost before = position_views(out@);
        match &g.children[i] {
            SvgNode::Group(h) => {
                let sub = collect_path_positions(h);
                let ghost added = path_positions(*h).map_values(|p: Seq<int>| seq![i as int] + p);
                let mut k: usize = 0;
                while k < sub.len()
                    invariant
                        k <= sub.len(),
                        position_views(sub@) == path_positions(*h),
                        added == path_positions(*h).map_values(|p: Seq<int>| seq![i as int] + p),
                        position_views(out@) == before + added.take(k as int),
                    decreases sub.len() - k,
                {
                    let q = prepend(i, &sub[k]);
                    let ghost mid = out@;
                    out.push(q);
                    assert(position_views(sub@)[k as int] == sub@[k as int]@.map_values(|k: usize| k as int));
                    assert(position_views(out@) =~= position_views(mid).push(q@.map_values(|k: usize| k as int)));
                    assert(added.take(k + 1) =~= added.take(k as int).push(added[k as int]));
                    k += 1;
                }
                assert(added.take(sub.len() as int) =~= added);
            },
            SvgNode::Path(_) => {
                let q = single(i);
                let ghost mid = out@;
                out.push(q);
                assert(position_views(out@) =~= position_views(mid).push(q@.map_values(|k: usize| k as int)));
                assert(position_views(out@) =~= before + seq![seq![i as int]]);
            },
            _ => {
                assert(position_views(out@) =~= before + Seq::<Seq<int>>::empty());
            },
        }
        i += 1;
    }
    out
}

/// The kinds of segments of a path outline.
#[derive(Debug, Clone, Copy, PartialEq, Eq)]
pub enum Segment {
    MoveTo,
    LineTo,
    QuadTo,
    CubicTo,
    Close,
}

/// The points a segment carries: one for a move or line, two for a
/// quadratic curve, three for a cubic one, none for a close.
pub open spec fn segment_points(s: Segment) -> nat {
    match s {
        Segment::MoveTo => 1,
        Segment::LineTo => 1,
        Segment::QuadTo => 2,
        Segment::CubicTo => 3,
        Segment::Close => 0,
    }
}

/// The points of the first `k` segments.
pub open spec fn points_of(segments: Seq<Segment>, k: int) -> nat
    decreases k,
{
    if k <= 0 || k > segments.len() {
        0
    } else {
        points_of(segments, k - 1) + segment_points(segments[k - 1])
    }
}

/// Counts the points of a path outline from its segments.
pub fn count_path_points(segments: &[Segment]) -> (n: usize)
    requires
        3 * segments@.len() <= usize::MAX,
    ensures
        n == points_of(segments@, segments@.len() as int),
{
    let mut n: usize = 0;
    let mut i: usize = 0;
    while i < segments.len()
        invariant
            i <= segments.len(),
            3 * segments@.len() <= usize::MAX,
            n == points_of(segments@, i as int),
            n <= 3 * i,
        decreases segments.len() - i,
    {
        n = n + match segments[i] {
            Segment::MoveTo => 1,
            Segment::LineTo => 1,
            Segment::QuadTo => 2,
            Segment::CubicTo => 3,
            Segment::Close => 0,
        };
        i += 1;
    }
    n
}

} // verus!
