//! Text renderings of the SVG group hierarchy.

use vstd::prelude::*;
use super::types::TreeNode;
use crate::text::{chars_of, string_of, push_all, push_decimal, decimal};

verus! {

/// ` #id` when the node has an ID.
pub open spec fn id_part(id: Option<String>) -> Seq<char> {
    match id {
        Some(s) => seq![' ', '#'] + s@,
        None => seq![],
    }
}

/// ` (n)` for a positive count, except on summary nodes (whose name starts with '(').
pub open spec fn count_part(name: Seq<char>, count: usize) -> Seq<char> {
    if count > 0 && !(name.len() > 0 && name[0] == '(') {
        seq![' ', '('] + decimal(count as nat) + seq![')']
    } else {
        seq![]
    }
}

/// A node's line without indentation: name, ID, count and a line break.
pub open spec fn node_label(node: TreeNode) -> Seq<char> {
    node.name@ + id_part(node.id) + count_part(node.name@, node.element_count) + seq!['\n']
}

/// `n` spaces.
pub open spec fn spaces(n: nat) -> Seq<char> {
    Seq::new(n, |i: int| ' ')
}

/// The compact rendering: one line per node, indented two spaces per level.
pub open spec fn tree_compact(node: TreeNode, indent: nat) -> Seq<char>
    decreases node, 0int,
{
    spaces(2 * indent) + node_label(node) + compact_list(
        node.children@,
        indent + 1,
        node.children@.len() as int,
    )
}

/// The compact renderings of the first `k` nodes, one after another.
pub open spec fn compact_list(nodes: Seq<TreeNode>, indent: nat, k: int) -> Seq<char>
    decreases nodes, k,
{
    if k <= 0 || k > nodes.len() {
        seq![]
    } else {
        compact_list(nodes, indent, k - 1) + tree_compact(nodes[k - 1], indent)
    }
}

/// The number of levels of a tree (1 for a leaf).
pub open spec fn tree_depth(node: TreeNode) -> nat
    decreases node, 0int,
{
    1 + depth_list(node.children@, node.children@.len() as int)
}

/// The greatest depth among the first `k` nodes (0 when there are none).
pub open spec fn depth_list(nodes: Seq<TreeNode>, k: int) -> nat
    decreases nodes, k,
{
    if k <= 0 || k > nodes.len() {
        0
    } else {
        let d = tree_depth(nodes[k - 1]);
        let e = depth_list(nodes, k - 1);
        if d > e {
            d
        } else {
            e
        }
    }
}

proof fn lemma_depth_list(nodes: Seq<TreeNode>, k: int, i: int)
    requires
        0 <= i < k <= nodes.len(),
    ensures
        tree_depth(nodes[i]) <= depth_list(nodes, k),
    decreases k,
{
    if i < k - 1 {
        lemma_depth_list(nodes, k - 1, i);
    }
}

/// The number of levels of a tree, or `usize::MAX` when it has at least that many.
pub fn tree_levels(node: &TreeNode) -> (r: usize)
    ensures
        r == if tree_depth(*node) < usize::MAX { tree_depth(*node) } else { usize::MAX as nat },
    decreases *node,
{
    let mut deepest: usize = 0;
    let mut i: usize = 0;
    while i < node.children.len()
        invariant
            i <= node.children@.len(),
            deepest == if depth_list(node.children@, i as int) < usize::MAX {
                depth_list(node.children@, i as int)
            } else {
                usize::MAX as nat
            },
        decreases node.children.len() - i,
    {
        let d = tree_levels(&node.children[i]);
        if d > deepest {
            deepest = d;
        }
        i += 1;
    }
    if deepest == usize::MAX {
        usize::MAX
    } else {
        deepest + 1
    }
}

fn push_label(node: &TreeNode, out: &mut Vec<char>)
    ensures
        final(out)@ == old(out)@ + node_label(*node),
{
    let name = chars_of(node.name.as_str());
    push_all(out, name.as_slice());
    match &node.id {
        Some(id) => {
            out.push(' ');
            out.push('#');
            let idc = chars_of(id.as_str());
            push_all(out, idc.as_slice());
        },
        None => {},
    }
    if node.element_count > 0 && !(name.len() > 0 && name[0] == '(') {
        out.push(' ');
        out.push('(');
        push_decimal(out, node.element_count as u64);
        out.push(')');
    }
    out.push('\n');
    assert(final(out)@ =~= old(out)@ + node_label(*node));
}

fn push_spaces(out: &mut Vec<char>, n: usize)
    ensures
        final(out)@ == old(out)@ + spaces(n as nat),
{
    let mut k: usize = 0;
    while k < n
        invariant
            k <= n,
            out@ == old(out)@ + spaces(k as nat),
        decreases n - k,
    {
        out.push(' ');
        k += 1;
        assert(out@ =~= old(out)@ + spaces(k as nat));
    }
}

fn compact_into(node: &TreeNode, indent: usize, out: &mut Vec<char>)
    requires
        2 * (indent + tree_depth(*node)) <= usize::MAX,
    ensures
        final(out)@ == old(out)@ + tree_compact(*node, indent as nat),
    decreases *node,
{
    push_spaces(out, 2 * indent);
    push_label(node, out);
    let ghost head = out@;
    let n = node.children.len();
    let mut i: usize = 0;
    while i < n
        invariant
            i <= n,
            n == node.children@.len(),
            2 * (indent + tree_depth(*node)) <= usize::MAX,
            out@ == head + compact_list(node.children@, (indent + 1) as nat, i as int),
        decreases n - i,
    {
        proof {
            lemma_depth_list(node.children@, n as int, i as int);
        }
        compact_into(&node.children[i], indent + 1, out);
        i += 1;
    }
}

/// Simplified tree rendering for compact output.
pub fn render_tree_compact(node: &TreeNode, indent: usize) -> (r: String)
    requires
        2 * (indent + tree_depth(*node)) <= usize::MAX,
    ensures
        r@ == tree_compact(*node, indent as nat),
{
    let mut out: Vec<char> = Vec::new();
    compact_into(node, indent, &mut out);
    assert(out@ =~= tree_compact(*node, indent as nat));
    string_of(out.as_slice())
}


/// The branch drawn before a node: none at the root, `└── ` for a last child, `├── ` otherwise.
pub open spec fn connector(indent: nat, is_last: bool) -> Seq<char> {
    if indent == 0 {
        seq![]
    } else if is_last {
        seq!['└', '─', '─', ' ']
    } else {
        seq!['├', '─', '─', ' ']
    }
}

/// The prefix for a node's children: empty under the root, else the node's
/// prefix, a `│` rail (a space after a last child) and three spaces.
pub open spec fn child_prefix(indent: nat, is_last: bool, prefix: Seq<char>) -> Seq<char> {
    if indent == 0 {
        seq![]
    } else {
        prefix + seq![if is_last { ' ' } else { '│' }] + seq![' ', ' ', ' ']
    }
}

/// The human-readable rendering with box-drawing branches.
pub open spec fn tree_text(node: TreeNode, indent: nat, is_last: bool, prefix: Seq<char>) -> Seq<char>
    decreases node, 0int,
{
    prefix + connector(indent, is_last) + node_label(node) + text_list(
        node.children@,
        indent + 1,
        child_prefix(indent, is_last, prefix),
        node.children@.len() as int,
    )
}

/// The renderings of the first `k` of the nodes; the last node of the whole list is the last child.
pub open spec fn text_list(nodes: Seq<TreeNode>, indent: nat, prefix: Seq<char>, k: int) -> Seq<char>
    decreases nodes, k,
{
    if k <= 0 || k > nodes.len() {
        seq![]
    } else {
        text_list(nodes, indent, prefix, k - 1) + tree_text(
            nodes[k - 1],
            indent,
            k - 1 == nodes.len() - 1,
            prefix,
        )
    }
}

fn text_into(node: &TreeNode, indent: usize, is_last: bool, prefix: &[char], out: &mut Vec<char>)
    requires
        indent + tree_depth(*node) <= usize::MAX,
    ensures
        final(out)@ == old(out)@ + tree_text(*node, indent as nat, is_last, prefix@),
    decreases *node,
{
    push_all(out, prefix);
    if indent != 0 {
        if is_last {
            out.push('└');
        } else {
            out.push('├');
        }
        out.push('─');
        out.push('─');
        out.push(' ');
    }
    push_label(node, out);
    let mut cp: Vec<char> = Vec::new();
    if indent != 0 {
        push_all(&mut cp, prefix);
        if is_last {
            cp.push(' ');
        } else {
            cp.push('│');
        }
        cp.push(' ');
        cp.push(' ');
        cp.push(' ');
    }
    assert(cp@ =~= child_prefix(indent as nat, is_last, prefix@));
    let ghost head = out@;
    assert(head =~= old(out)@ + prefix@ + connector(indent as nat, is_last) + node_label(*node));
    let n = node.children.len();
    let mut i: usize = 0;
    while i < n
        invariant
            i <= n,
            n == node.children@.len(),
            indent + tree_depth(*node) <= usize::MAX,
            out@ == head + text_list(node.children@, (indent + 1) as nat, cp@, i as int),
        decreases n - i,
    {
        proof {
            lemma_depth_list(node.children@, n as int, i as int);
        }
        let is_last_child = i == n - 1;
        text_into(&node.children[i], indent + 1, is_last_child, cp.as_slice(), out);
        i += 1;
    }
}

/// Render tree in human-readable text format.
pub fn render_tree_text(node: &TreeNode, indent: usize, is_last: bool, prefix: &str) -> (r: String)
    requires
        indent + tree_depth(*node) <= usize::MAX,
    ensures
        r@ == tree_text(*node, indent as nat, is_last, prefix@),
{
    let p = chars_of(prefix);
    let mut out: Vec<char> = Vec::new();
    text_into(node, indent, is_last, p.as_slice(), &mut out);
    assert(out@ =~= tree_text(*node, indent as nat, is_last, prefix@));
    string_of(out.as_slice())
}

/// How a node's rendering hangs its children below it. A child node is
/// drawn as its prefix, `└── ` (last child) or `├── ` (other children), and
/// its line; its own children then get the prefix followed by four spaces
/// below a last child, so that no `│` rail continues under it, and by `│`
/// and three spaces below any other child, so that the rail runs on to the
/// next sibling. The root is drawn without branch and its children get no
/// prefix.
pub proof fn children_hang_from_their_rail(node: TreeNode, indent: nat, prefix: Seq<char>)
    ensures
        indent > 0 ==> tree_text(node, indent, true, prefix) == prefix + seq!['└', '─', '─', ' ']
            + node_label(node) + text_list(
            node.children@,
            indent + 1,
            prefix + seq![' ', ' ', ' ', ' '],
            node.children@.len() as int,
        ),
        indent > 0 ==> tree_text(node, indent, false, prefix) == prefix + seq!['├', '─', '─', ' ']
            + node_label(node) + text_list(
            node.children@,
            indent + 1,
            prefix + seq!['│', ' ', ' ', ' '],
            node.children@.len() as int,
        ),
        tree_text(node, 0, true, prefix) == prefix + node_label(node) + text_list(
            node.children@,
            1,
            Seq::empty(),
            node.children@.len() as int,
        ),
{
    assert(prefix + seq![' '] + seq![' ', ' ', ' '] =~= prefix + seq![' ', ' ', ' ', ' ']);
    assert(prefix + seq!['│'] + seq![' ', ' ', ' '] =~= prefix + seq!['│', ' ', ' ', ' ']);
    assert(prefix + Seq::<char>::empty() =~= prefix);
}

/// In the compact view a node's line starts with two spaces for each level
/// of indentation, followed by the node's name.
pub proof fn compact_lines_indent_two_per_level(node: TreeNode, indent: nat)
    ensures
        tree_compact(node, indent).take(2 * indent as int) == Seq::new((2 * indent) as nat, |i: int| ' '),
        tree_compact(node, indent).subrange(2 * indent as int, (2 * indent + node.name@.len()) as int) == node.name@,
{
    let t = tree_compact(node, indent);
    assert(t.take(2 * indent as int) =~= Seq::new((2 * indent) as nat, |i: int| ' '));
    assert(t.subrange(2 * indent as int, (2 * indent + node.name@.len()) as int) =~= node.name@);
}

} // verus!
