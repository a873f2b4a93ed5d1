//! Grid orders of the space-filling fill patterns: the Peano curve and the
//! serpentine meander, both as sequences of integer grid cells.

use vstd::prelude::*;

verus! {

/// A grid cell, as (column, row).
pub type Cell = (int, int);

/// `n` is a power of three (1, 3, 9, 27, ...).
pub open spec fn is_pow3(n: int) -> bool
    decreases n,
{
    if n <= 1 {
        n == 1
    } else {
        n % 3 == 0 && is_pow3(n / 3)
    }
}

/// Dividing `n` by three (rounding down) again and again reaches 1: the
/// sides on which the recursive order comes down to single cells.
pub open spec fn reaches_one(n: int) -> bool
    decreases n,
{
    if n < 3 {
        n == 1
    } else {
        reaches_one(n / 3)
    }
}

proof fn lemma_pow3_reaches_one(n: int)
    requires
        is_pow3(n),
    ensures
        reaches_one(n),
    decreases n,
{
    if n > 1 {
        lemma_pow3_reaches_one(n / 3);
    }
}

/// `0`, `s` or `2s` for a sub-block coordinate `c` in 0..3.
pub open spec fn offset(c: int, s: int) -> int {
    if c == 0 {
        0
    } else if c == 1 {
        s
    } else {
        2 * s
    }
}

/// Grid row (0..3, counted upward) of the `idx`-th of the nine sub-blocks.
pub open spec fn block_row(fy: bool, idx: int) -> int {
    let r = idx / 3;
    if fy {
        2 - r
    } else {
        r
    }
}

/// Grid column (0..3) of the `idx`-th of the nine sub-blocks: rows run serpentine.
pub open spec fn block_col(fx: bool, idx: int) -> int {
    let r = idx / 3;
    let c = idx % 3;
    let go_right = (r % 2 == 0) != fx;
    if go_right {
        c
    } else {
        2 - c
    }
}

/// The Peano order of the square of side `size` at (`x`, `y`), with the given flips.
pub open spec fn peano(x: int, y: int, size: int, fx: bool, fy: bool) -> Seq<Cell>
    decreases size, 10int,
{
    if size <= 1 {
        seq![(x, y)]
    } else {
        peano_blocks(x, y, size, fx, fy, 9)
    }
}

/// The Peano orders of the first `n` of the nine sub-blocks, one after another.
pub open spec fn peano_blocks(x: int, y: int, size: int, fx: bool, fy: bool, n: int) -> Seq<Cell>
    decreases size, n,
{
    if n <= 0 || size <= 1 {
        seq![]
    } else {
        let s = size / 3;
        let i = n - 1;
        let r = block_row(fy, i);
        let c = block_col(fx, i);
        peano_blocks(x, y, size, fx, fy, n - 1) + peano(
            x + offset(c, s),
            y + offset(r, s),
            s,
            fx != (r == 1),
            fy != (c == 1),
        )
    }
}


/// `p` lies in the square of side `size` whose lowest corner is (`x`, `y`).
pub open spec fn in_square(p: Cell, x: int, y: int, size: int) -> bool {
    x <= p.0 < x + size && y <= p.1 < y + size
}

/// Two cells share a side.
pub open spec fn adjacent(a: Cell, b: Cell) -> bool {
    ||| (a.1 == b.1 && (a.0 - b.0 == 1 || b.0 - a.0 == 1))
    ||| (a.0 == b.0 && (a.1 - b.1 == 1 || b.1 - a.1 == 1))
}

/// The cell where a Peano order with these flips starts.
pub open spec fn first_corner(x: int, y: int, size: int, fx: bool, fy: bool) -> Cell {
    (if fx { x + size - 1 } else { x }, if fy { y + size - 1 } else { y })
}

/// The cell where a Peano order with these flips ends.
pub open spec fn last_corner(x: int, y: int, size: int, fx: bool, fy: bool) -> Cell {
    (if fx { x } else { x + size - 1 }, if fy { y } else { y + size - 1 })
}

/// Which third (0, 1 or 2) of a side of length `3s` the distance `d` falls in.
pub open spec fn third(d: int, s: int) -> int {
    if d < s {
        0
    } else if d < 2 * s {
        1
    } else {
        2
    }
}

/// The position in the visiting order of the sub-block at grid row `r`, column `c`.
pub open spec fn block_index(fx: bool, fy: bool, r: int, c: int) -> int {
    let ri = if fy { 2 - r } else { r };
    let go_right = (ri % 2 == 0) != fx;
    let ci = if go_right { c } else { 2 - c };
    3 * ri + ci
}

/// The position in the visiting order of the sub-block that holds cell `p`.
pub open spec fn cell_block(p: Cell, x: int, y: int, s: int, fx: bool, fy: bool) -> int {
    block_index(fx, fy, third(p.1 - y, s), third(p.0 - x, s))
}

proof fn lemma_block_index_inverse(fx: bool, fy: bool, i: int)
    requires
        0 <= i < 9,
    ensures
        0 <= block_row(fy, i) < 3,
        0 <= block_col(fx, i) < 3,
        block_index(fx, fy, block_row(fy, i), block_col(fx, i)) == i,
{
}

proof fn lemma_block_index_range(fx: bool, fy: bool, r: int, c: int)
    requires
        0 <= r < 3,
        0 <= c < 3,
    ensures
        0 <= block_index(fx, fy, r, c) < 9,
        block_row(fy, block_index(fx, fy, r, c)) == r,
        block_col(fx, block_index(fx, fy, r, c)) == c,
{
}

/// Cells of the `i`-th sub-block are exactly the cells of the block whose sub-block index is `i`.
proof fn lemma_sub_square(p: Cell, x: int, y: int, s: int, fx: bool, fy: bool, i: int)
    requires
        0 <= i < 9,
        s > 0,
    ensures
        in_square(p, x + offset(block_col(fx, i), s), y + offset(block_row(fy, i), s), s) <==> (
        in_square(p, x, y, 3 * s) && cell_block(p, x, y, s, fx, fy) == i),
{
    lemma_block_index_inverse(fx, fy, i);
    if in_square(p, x, y, 3 * s) {
        lemma_block_index_range(fx, fy, third(p.1 - y, s), third(p.0 - x, s));
    }
}

/// Where one sub-block's order ends, the next one's starts on a neighbouring cell.
proof fn lemma_block_transition(x: int, y: int, s: int, fx: bool, fy: bool, i: int)
    requires
        0 <= i < 8,
        s > 0,
    ensures
        ({
            let r0 = block_row(fy, i);
            let c0 = block_col(fx, i);
            let r1 = block_row(fy, i + 1);
            let c1 = block_col(fx, i + 1);
            adjacent(
                last_corner(x + offset(c0, s), y + offset(r0, s), s, fx != (r0 == 1), fy != (c0 == 1)),
                first_corner(x + offset(c1, s), y + offset(r1, s), s, fx != (r1 == 1), fy != (c1 == 1)),
            )
        }),
{
}


/// Every cell of `q` lies in the square.
#[verifier::opaque]
pub open spec fn all_in_square(q: Seq<Cell>, x: int, y: int, size: int) -> bool {
    forall|k: int| 0 <= k < q.len() ==> in_square(#[trigger] q[k], x, y, size)
}

/// Every cell of the square occurs in `q`.
#[verifier::opaque]
pub open spec fn covers_square(q: Seq<Cell>, x: int, y: int, size: int) -> bool {
    forall|p: Cell| in_square(p, x, y, size) ==> #[trigger] q.contains(p)
}

/// Consecutive cells of `q` share a side.
#[verifier::opaque]
pub open spec fn is_chain(q: Seq<Cell>) -> bool {
    forall|k: int| 0 <= k < q.len() - 1 ==> adjacent(#[trigger] q[k], q[k + 1])
}

/// Every cell of `b` lies in one of the first `n` sub-blocks of the square of side `3s`.
#[verifier::opaque]
spec fn in_blocks_before(b: Seq<Cell>, x: int, y: int, s: int, fx: bool, fy: bool, n: int) -> bool {
    forall|k: int|
        0 <= k < b.len() ==> in_square(#[trigger] b[k], x, y, 3 * s) && cell_block(
            b[k],
            x,
            y,
            s,
            fx,
            fy,
        ) < n
}

/// Every cell of the first `n` sub-blocks of the square of side `3s` occurs in `b`.
#[verifier::opaque]
spec fn covers_blocks_before(b: Seq<Cell>, x: int, y: int, s: int, fx: bool, fy: bool, n: int) -> bool {
    forall|p: Cell|
        in_square(p, x, y, 3 * s) && cell_block(p, x, y, s, fx, fy) < n ==> #[trigger] b.contains(p)
}

proof fn lemma_concat_regions(
    a: Seq<Cell>,
    q: Seq<Cell>,
    x: int,
    y: int,
    s: int,
    fx: bool,
    fy: bool,
    i: int,
)
    requires
        0 <= i < 9,
        s > 0,
        in_blocks_before(a, x, y, s, fx, fy, i),
        a.no_duplicates(),
        q.no_duplicates(),
        all_in_square(q, x + offset(block_col(fx, i), s), y + offset(block_row(fy, i), s), s),
    ensures
        in_blocks_before(a + q, x, y, s, fx, fy, i + 1),
        (a + q).no_duplicates(),
{
    reveal(in_blocks_before);
    reveal(all_in_square);
    let b = a + q;
    assert forall|k: int| 0 <= k < q.len() implies in_square(#[trigger] q[k], x, y, 3 * s)
        && cell_block(q[k], x, y, s, fx, fy) == i by {
        lemma_sub_square(q[k], x, y, s, fx, fy, i);
    }
    assert forall|k: int|
        0 <= k < b.len() implies in_square(#[trigger] b[k], x, y, 3 * s) && cell_block(
            b[k],
            x,
            y,
            s,
            fx,
            fy,
        ) < i + 1 by {
        if k >= a.len() {
            assert(b[k] == q[k - a.len()]);
        } else {
            assert(b[k] == a[k]);
        }
    }
    assert forall|u: int, v: int|
        0 <= u < b.len() && 0 <= v < b.len() && u != v implies b[u] != b[v] by {
        if u < a.len() && v >= a.len() {
            assert(b[v] == q[v - a.len()]);
            assert(b[u] == a[u]);
        } else if v < a.len() && u >= a.len() {
            assert(b[u] == q[u - a.len()]);
            assert(b[v] == a[v]);
        } else if u >= a.len() && v >= a.len() {
            assert(b[u] == q[u - a.len()]);
            assert(b[v] == q[v - a.len()]);
        } else {
            assert(b[u] == a[u]);
            assert(b[v] == a[v]);
        }
    }
}

proof fn lemma_concat_covers(
    a: Seq<Cell>,
    q: Seq<Cell>,
    x: int,
    y: int,
    s: int,
    fx: bool,
    fy: bool,
    i: int,
)
    requires
        0 <= i < 9,
        s > 0,
        covers_blocks_before(a, x, y, s, fx, fy, i),
        covers_square(q, x + offset(block_col(fx, i), s), y + offset(block_row(fy, i), s), s),
    ensures
        covers_blocks_before(a + q, x, y, s, fx, fy, i + 1),
{
    reveal(covers_blocks_before);
    reveal(covers_square);
    let b = a + q;
    assert forall|p: Cell|
        in_square(p, x, y, 3 * s) && cell_block(p, x, y, s, fx, fy) < i + 1 implies #[trigger] b.contains(p) by {
        if cell_block(p, x, y, s, fx, fy) < i {
            assert(a.contains(p));
            let k = choose|k: int| 0 <= k < a.len() && a[k] == p;
            assert(b[k] == p);
        } else {
            lemma_sub_square(p, x, y, s, fx, fy, i);
            assert(q.contains(p));
            let k = choose|k: int| 0 <= k < q.len() && q[k] == p;
            assert(b[a.len() + k] == p);
        }
    }
}

proof fn lemma_concat_chain(a: Seq<Cell>, q: Seq<Cell>)
    requires
        is_chain(a),
        is_chain(q),
        a.len() == 0 || q.len() == 0 || adjacent(a.last(), q[0]),
    ensures
        is_chain(a + q),
{
    reveal(is_chain);
    let b = a + q;
    assert forall|k: int| 0 <= k < b.len() - 1 implies adjacent(#[trigger] b[k], b[k + 1]) by {
        if k < a.len() - 1 {
            assert(b[k] == a[k]);
            assert(b[k + 1] == a[k + 1]);
        } else if k == a.len() - 1 {
            assert(b[k] == a.last());
            assert(b[k + 1] == q[0]);
        } else {
            assert(b[k] == q[k - a.len()]);
            assert(b[k + 1] == q[k + 1 - a.len()]);
        }
    }
}

/// Everything the Peano order of one square satisfies, proved with its sub-blocks.
proof fn lemma_peano(x: int, y: int, size: int, fx: bool, fy: bool)
    requires
        is_pow3(size),
    ensures
        peano(x, y, size, fx, fy).len() == size * size,
        all_in_square(peano(x, y, size, fx, fy), x, y, size),
        peano(x, y, size, fx, fy).no_duplicates(),
        covers_square(peano(x, y, size, fx, fy), x, y, size),
        peano(x, y, size, fx, fy)[0] == first_corner(x, y, size, fx, fy),
        peano(x, y, size, fx, fy).last() == last_corner(x, y, size, fx, fy),
        is_chain(peano(x, y, size, fx, fy)),
    decreases size, 10int,
{
    let q = peano(x, y, size, fx, fy);
    if size <= 1 {
        assert(size == 1);
        assert(q =~= seq![(x, y)]);
        reveal(all_in_square);
        reveal(covers_square);
        reveal(is_chain);
        assert forall|p: Cell| in_square(p, x, y, size) implies #[trigger] q.contains(p) by {
            assert(q[0] == p);
        }
    } else {
        let s = size / 3;
        lemma_blocks(x, y, size, fx, fy, 9);
        assert(q == peano_blocks(x, y, size, fx, fy, 9));
        assert(size == 3 * s);
        assert(block_row(fy, 8) == if fy { 0int } else { 2int });
        assert(block_col(fx, 8) == if fx { 0int } else { 2int });
        assert(9 * (s * s) == size * size) by (nonlinear_arith)
            requires
                size == 3 * s,
        ;
        reveal(in_blocks_before);
        reveal(covers_blocks_before);
        reveal(all_in_square);
        reveal(covers_square);
        assert forall|p: Cell| in_square(p, x, y, size) implies #[trigger] q.contains(p) by {
            lemma_block_index_range(fx, fy, third(p.1 - y, s), third(p.0 - x, s));
        }
    }
}

/// Everything the first `n` sub-blocks of a Peano order satisfy together.
proof fn lemma_blocks(x: int, y: int, size: int, fx: bool, fy: bool, n: int)
    requires
        is_pow3(size),
        size > 1,
        0 <= n <= 9,
    ensures
        ({
            let b = peano_blocks(x, y, size, fx, fy, n);
            let s = size / 3;
            &&& b.len() == n * (s * s)
            &&& in_blocks_before(b, x, y, s, fx, fy, n)
            &&& b.no_duplicates()
            &&& covers_blocks_before(b, x, y, s, fx, fy, n)
            &&& n >= 1 ==> b[0] == first_corner(x, y, size, fx, fy)
            &&& n >= 1 ==> b.last() == last_corner(
                x + offset(block_col(fx, n - 1), s),
                y + offset(block_row(fy, n - 1), s),
                s,
                fx != (block_row(fy, n - 1) == 1),
                fy != (block_col(fx, n - 1) == 1),
            )
            &&& is_chain(b)
        }),
    decreases size, n,
{
    let s = size / 3;
    assert(size == 3 * s);
    assert(s >= 1);
    assert(is_pow3(s));
    if n == 0 {
        let b = peano_blocks(x, y, size, fx, fy, n);
        assert(b.len() == 0);
        reveal(in_blocks_before);
        reveal(covers_blocks_before);
        reveal(is_chain);
        assert forall|p: Cell|
            in_square(p, x, y, 3 * s) && cell_block(p, x, y, s, fx, fy) < n implies #[trigger] b.contains(p) by {
            lemma_block_index_range(fx, fy, third(p.1 - y, s), third(p.0 - x, s));
        }
    } else {
        let i = n - 1;
        let r = block_row(fy, i);
        let c = block_col(fx, i);
        let sx = x + offset(c, s);
        let sy = y + offset(r, s);
        let sfx = fx != (r == 1);
        let sfy = fy != (c == 1);
        lemma_blocks(x, y, size, fx, fy, n - 1);
        lemma_peano(sx, sy, s, sfx, sfy);
        lemma_block_index_inverse(fx, fy, i);
        let a = peano_blocks(x, y, size, fx, fy, n - 1);
        let q = peano(sx, sy, s, sfx, sfy);
        let b = peano_blocks(x, y, size, fx, fy, n);
        assert(b == a + q);
        assert(b.len() == n * (s * s)) by (nonlinear_arith)
            requires
                b.len() == a.len() + q.len(),
                a.len() == (n - 1) * (s * s),
                q.len() == s * s,
        ;
        lemma_concat_regions(a, q, x, y, s, fx, fy, i);
        lemma_concat_covers(a, q, x, y, s, fx, fy, i);
        if n >= 2 {
            lemma_block_transition(x, y, s, fx, fy, n - 2);
            assert(a.len() >= 1) by (nonlinear_arith)
                requires
                    a.len() == (n - 1) * (s * s),
                    n >= 2,
                    s >= 1,
            ;
        }
        assert(q.len() >= 1) by (nonlinear_arith)
            requires
                q.len() == s * s,
                s >= 1,
        ;
        lemma_concat_chain(a, q);
        assert(b.last() == q.last());
        if n == 1 {
            assert(b[0] == q[0]);
        } else {
            assert(b[0] == a[0]);
        }
    }
}


/// Cells as the unsigned coordinate pairs that the generators return.
pub open spec fn to_usize_cells(q: Seq<Cell>) -> Seq<(usize, usize)> {
    q.map_values(|p: Cell| (p.0 as usize, p.1 as usize))
}

proof fn lemma_to_usize_cells_add(a: Seq<Cell>, b: Seq<Cell>)
    ensures
        to_usize_cells(a + b) == to_usize_cells(a) + to_usize_cells(b),
{
    assert(to_usize_cells(a + b) =~= to_usize_cells(a) + to_usize_cells(b));
}

/// Recursively generate Peano curve points.
///
/// Appends to `points` the cells of the square of side `size` at (`x`, `y`) in
/// Peano order. `flip_x` reverses the column direction and `flip_y` the row
/// direction; the middle row toggles `flip_x` for its sub-squares and the
/// middle column toggles `flip_y`.
pub fn peano_recursive(
    x: i32,
    y: i32,
    size: i32,
    flip_x: bool,
    flip_y: bool,
    points: &mut Vec<(usize, usize)>,
)
    requires
        reaches_one(size as int),
        x + size - 1 <= i32::MAX,
        y + size - 1 <= i32::MAX,
    ensures
        final(points)@ == old(points)@ + to_usize_cells(
            peano(x as int, y as int, size as int, flip_x, flip_y),
        ),
    decreases size,
{
    if size == 1 {
        points.push((x as usize, y as usize));
        proof {
            assert(to_usize_cells(peano(x as int, y as int, size as int, flip_x, flip_y))
                =~= seq![(x as usize, y as usize)]);
        }
        return;
    }
    let s = size / 3;
    assert(reaches_one(s as int));
    let ghost start = points@;
    for row_idx in 0..3i32
        invariant
            reaches_one(size as int),
            size > 1,
            s == size / 3,
            reaches_one(s as int),
            x + size - 1 <= i32::MAX,
            y + size - 1 <= i32::MAX,
            points@ == start + to_usize_cells(
                peano_blocks(x as int, y as int, size as int, flip_x, flip_y, 3 * row_idx),
            ),
    {
        let row = if flip_y { 2 - row_idx } else { row_idx };
        for col_idx in 0..3i32
            invariant
                reaches_one(size as int),
                size > 1,
                s == size / 3,
                reaches_one(s as int),
                x + size - 1 <= i32::MAX,
                y + size - 1 <= i32::MAX,
                0 <= row_idx < 3,
                row == (if flip_y { 2 - row_idx } else { row_idx as int }),
                points@ == start + to_usize_cells(
                    peano_blocks(x as int, y as int, size as int, flip_x, flip_y, 3 * row_idx + col_idx),
                ),
        {
            let go_right = (row_idx % 2 == 0) != flip_x;
            let col = if go_right { col_idx } else { 2 - col_idx };
            let ghost i = 3 * row_idx + col_idx;
            assert(i / 3 == row_idx && i % 3 == col_idx);
            assert(block_row(flip_y, i as int) == row);
            assert(block_col(flip_x, i as int) == col);
            assert(col * s == offset(col as int, s as int)) by (nonlinear_arith)
                requires
                    0 <= col < 3,
            ;
            assert(row * s == offset(row as int, s as int)) by (nonlinear_arith)
                requires
                    0 <= row < 3,
            ;
            let sub_x = x + col * s;
            let sub_y = y + row * s;
            let sub_flip_x = flip_x ^ (row == 1);
            let sub_flip_y = flip_y ^ (col == 1);
            peano_recursive(sub_x, sub_y, s, sub_flip_x, sub_flip_y, points);
            proof {
                lemma_to_usize_cells_add(
                    peano_blocks(x as int, y as int, size as int, flip_x, flip_y, i as int),
                    peano(sub_x as int, sub_y as int, s as int, sub_flip_x, sub_flip_y),
                );
            }
        }
    }
    assert(peano(x as int, y as int, size as int, flip_x, flip_y) == peano_blocks(
        x as int,
        y as int,
        size as int,
        flip_x,
        flip_y,
        9,
    ));
}

/// The Peano order of a square whose side is a power of three visits every
/// cell of the square exactly once (and such a side is one that
/// `peano_recursive` takes).
pub proof fn peano_visits_every_cell_once(x: int, y: int, size: int, flip_x: bool, flip_y: bool)
    requires
        is_pow3(size),
    ensures
        reaches_one(size),
        peano(x, y, size, flip_x, flip_y).len() == size * size,
        forall|k: int|
            0 <= k < size * size ==> in_square(#[trigger] peano(x, y, size, flip_x, flip_y)[k], x, y, size),
        peano(x, y, size, flip_x, flip_y).no_duplicates(),
        forall|p: Cell| in_square(p, x, y, size) ==> #[trigger] peano(x, y, size, flip_x, flip_y).contains(p),
{
    lemma_pow3_reaches_one(size);
    lemma_peano(x, y, size, flip_x, flip_y);
    reveal(all_in_square);
    reveal(covers_square);
}

/// The Peano order is continuous: each cell shares a side with the next one.
/// It starts and ends at opposite corners of the square.
pub proof fn peano_is_continuous(x: int, y: int, size: int, flip_x: bool, flip_y: bool)
    requires
        is_pow3(size),
    ensures
        forall|k: int|
            0 <= k < size * size - 1 ==> adjacent(
                #[trigger] peano(x, y, size, flip_x, flip_y)[k],
                peano(x, y, size, flip_x, flip_y)[k + 1],
            ),
        peano(x, y, size, flip_x, flip_y)[0] == first_corner(x, y, size, flip_x, flip_y),
        peano(x, y, size, flip_x, flip_y).last() == last_corner(x, y, size, flip_x, flip_y),
{
    lemma_peano(x, y, size, flip_x, flip_y);
    reveal(is_chain);
}


/// Row `r` of the serpentine order over a grid of side `n`: even rows run left
/// to right, odd rows right to left.
pub open spec fn meander_row(n: int, r: int) -> Seq<Cell> {
    Seq::new(n as nat, |k: int| (if r % 2 == 0 { k } else { n - 1 - k }, r))
}

/// The first `r` rows of the serpentine order, one after another.
pub open spec fn meander_rows(n: int, r: int) -> Seq<Cell>
    decreases r,
{
    if r <= 0 {
        seq![]
    } else {
        meander_rows(n, r - 1) + meander_row(n, r - 1)
    }
}

/// The serpentine order over every cell of a grid of side `n`.
pub open spec fn meander(n: int) -> Seq<Cell> {
    meander_rows(n, n)
}

proof fn lemma_meander_row(n: int, r: int)
    requires
        n >= 1,
        r >= 0,
    ensures
        meander_row(n, r).len() == n,
        forall|k: int|
            0 <= k < n ==> (#[trigger] meander_row(n, r)[k]).1 == r && 0 <= meander_row(n, r)[k].0 < n,
        meander_row(n, r).no_duplicates(),
        forall|p: Cell| 0 <= p.0 < n && p.1 == r ==> #[trigger] meander_row(n, r).contains(p),
        is_chain(meander_row(n, r)),
        meander_row(n, r)[0] == (if r % 2 == 0 { 0 } else { n - 1 }, r),
        meander_row(n, r).last() == (if r % 2 == 0 { n - 1 } else { 0 }, r),
{
    reveal(is_chain);
    let q = meander_row(n, r);
    assert forall|p: Cell| 0 <= p.0 < n && p.1 == r implies #[trigger] q.contains(p) by {
        if r % 2 == 0 {
            assert(q[p.0] == p);
        } else {
            assert(q[n - 1 - p.0] == p);
        }
    }
}

proof fn lemma_meander_rows(n: int, r: int)
    requires
        n >= 1,
        0 <= r,
    ensures
        meander_rows(n, r).len() == r * n,
        forall|k: int|
            0 <= k < meander_rows(n, r).len() ==> 0 <= (#[trigger] meander_rows(n, r)[k]).0 < n && 0
                <= meander_rows(n, r)[k].1 < r,
        meander_rows(n, r).no_duplicates(),
        forall|p: Cell| 0 <= p.0 < n && 0 <= p.1 < r ==> #[trigger] meander_rows(n, r).contains(p),
        is_chain(meander_rows(n, r)),
        r >= 1 ==> meander_rows(n, r).last() == (if (r - 1) % 2 == 0 { n - 1 } else { 0 }, r - 1),
    decreases r,
{
    let b = meander_rows(n, r);
    if r == 0 {
        reveal(is_chain);
    } else {
        lemma_meander_rows(n, r - 1);
        lemma_meander_row(n, r - 1);
        let a = meander_rows(n, r - 1);
        let q = meander_row(n, r - 1);
        assert(b == a + q);
        assert(b.len() == r * n) by (nonlinear_arith)
            requires
                b.len() == a.len() + q.len(),
                a.len() == (r - 1) * n,
                q.len() == n,
        ;
        assert forall|k: int|
            0 <= k < b.len() implies 0 <= (#[trigger] b[k]).0 < n && 0 <= b[k].1 < r by {
            if k >= a.len() {
                assert(b[k] == q[k - a.len()]);
            } else {
                assert(b[k] == a[k]);
            }
        }
        assert forall|u: int, v: int|
            0 <= u < b.len() && 0 <= v < b.len() && u != v implies b[u] != b[v] by {
            if u < a.len() && v >= a.len() {
                assert(b[v] == q[v - a.len()]);
                assert(b[u] == a[u]);
            } else if v < a.len() && u >= a.len() {
                assert(b[u] == q[u - a.len()]);
                assert(b[v] == a[v]);
            } else if u >= a.len() && v >= a.len() {
                assert(b[u] == q[u - a.len()]);
                assert(b[v] == q[v - a.len()]);
            } else {
                assert(b[u] == a[u]);
                assert(b[v] == a[v]);
            }
        }
        assert forall|p: Cell| 0 <= p.0 < n && 0 <= p.1 < r implies #[trigger] b.contains(p) by {
            if p.1 < r - 1 {
                assert(a.contains(p));
                let k = choose|k: int| 0 <= k < a.len() && a[k] == p;
                assert(b[k] == p);
            } else {
                assert(q.contains(p));
                let k = choose|k: int| 0 <= k < q.len() && q[k] == p;
                assert(b[a.len() + k] == p);
            }
        }
        lemma_concat_chain(a, q);
        assert(b.last() == q.last());
    }
}

/// Generate serpentine meander points that visit every cell exactly once.
pub fn meander_points(size: usize) -> (points: Vec<(usize, usize)>)
    requires
        size * size <= usize::MAX,
    ensures
        points@ == to_usize_cells(meander(size as int)),
{
    let mut points: Vec<(usize, usize)> = Vec::with_capacity(size * size);
    for row in 0..size
        invariant
            points@ == to_usize_cells(meander_rows(size as int, row as int)),
    {
        let ghost before = points@;
        if row % 2 == 0 {
            for col in 0..size
                invariant
                    row % 2 == 0,
                    points@ == before + to_usize_cells(meander_row(size as int, row as int).take(col as int)),
            {
                points.push((col, row));
                proof {
                    assert(to_usize_cells(meander_row(size as int, row as int).take(col + 1))
                        =~= to_usize_cells(meander_row(size as int, row as int).take(col as int)).push((col, row)));
                }
            }
        } else {
            let mut col = size;
            while col > 0
                invariant
                    row % 2 == 1,
                    col <= size,
                    points@ == before + to_usize_cells(
                        meander_row(size as int, row as int).take(size - col),
                    ),
                decreases col,
            {
                col = col - 1;
                points.push((col, row));
                proof {
                    assert(to_usize_cells(meander_row(size as int, row as int).take(size - col))
                        =~= to_usize_cells(meander_row(size as int, row as int).take(size - col - 1)).push((col, row)));
                }
            }
        }
        proof {
            assert(meander_row(size as int, row as int).take(size as int) =~= meander_row(size as int, row as int));
            lemma_to_usize_cells_add(meander_rows(size as int, row as int), meander_row(size as int, row as int));
        }
    }
    points
}

/// The serpentine order of a grid of side `n` visits every cell exactly once.
pub proof fn meander_visits_every_cell_once(n: int)
    requires
        n >= 0,
    ensures
        meander(n).len() == n * n,
        forall|k: int| 0 <= k < n * n ==> in_square(#[trigger] meander(n)[k], 0, 0, n),
        meander(n).no_duplicates(),
        forall|p: Cell| in_square(p, 0, 0, n) ==> #[trigger] meander(n).contains(p),
{
    if n >= 1 {
        lemma_meander_rows(n, n);
    }
}

/// The serpentine order is continuous: each cell shares a side with the next one.
pub proof fn meander_is_continuous(n: int)
    requires
        n >= 0,
    ensures
        forall|k: int| 0 <= k < n * n - 1 ==> adjacent(#[trigger] meander(n)[k], meander(n)[k + 1]),
{
    if n >= 1 {
        lemma_meander_rows(n, n);
        reveal(is_chain);
    }
}


/// What the Gosper L-system rewrites one symbol to:
/// A -> A-B--B+A++AA+B-, B -> +A-BB--B-A++A+B; turns stay as they are.
pub open spec fn gosper_rule(c: char) -> Seq<char> {
    if c == 'A' {
        seq!['A', '-', 'B', '-', '-', 'B', '+', 'A', '+', '+', 'A', 'A', '+', 'B', '-']
    } else if c == 'B' {
        seq!['+', 'A', '-', 'B', 'B', '-', '-', 'B', '-', 'A', '+', '+', 'A', '+', 'B']
    } else {
        seq![c]
    }
}

/// One rewriting step of the Gosper L-system over a whole string.
pub open spec fn gosper_step(s: Seq<char>) -> Seq<char>
    decreases s.len(),
{
    if s.len() == 0 {
        seq![]
    } else {
        gosper_step(s.drop_last()) + gosper_rule(s.last())
    }
}

/// The Gosper L-system string after `depth` steps from the axiom "A".
pub open spec fn gosper_string(depth: nat) -> Seq<char>
    decreases depth,
{
    if depth == 0 {
        seq!['A']
    } else {
        gosper_step(gosper_string((depth - 1) as nat))
    }
}

/// How many forward moves (`A` or `B`) a string holds.
pub open spec fn move_count(s: Seq<char>) -> nat
    decreases s.len(),
{
    if s.len() == 0 {
        0
    } else {
        move_count(s.drop_last()) + if s.last() == 'A' || s.last() == 'B' { 1nat } else { 0nat }
    }
}

/// Powers of seven.
pub open spec fn pow7(n: nat) -> nat
    decreases n,
{
    if n == 0 {
        1
    } else {
        7 * pow7((n - 1) as nat)
    }
}

fn push_rule(out: &mut Vec<char>, c: char)
    ensures
        final(out)@ == old(out)@ + gosper_rule(c),
{
    if c == 'A' {
        out.push('A'); out.push('-'); out.push('B'); out.push('-'); out.push('-');
        out.push('B'); out.push('+'); out.push('A'); out.push('+'); out.push('+');
        out.push('A'); out.push('A'); out.push('+'); out.push('B'); out.push('-');
    } else if c == 'B' {
        out.push('+'); out.push('A'); out.push('-'); out.push('B'); out.push('B');
        out.push('-'); out.push('-'); out.push('B'); out.push('-'); out.push('A');
        out.push('+'); out.push('+'); out.push('A'); out.push('+'); out.push('B');
    } else {
        out.push(c);
    }
    assert(final(out)@ =~= old(out)@ + gosper_rule(c));
}

/// The Gosper curve (flowsnake) as L-system symbols: `A` and `B` draw one
/// step forward, `+` turns left and `-` turns right by 60 degrees.
pub fn gosper_symbols(depth: u32) -> (r: Vec<char>)
    ensures
        r@ == gosper_string(depth as nat),
{
    let mut current: Vec<char> = Vec::new();
    current.push('A');
    assert(current@ =~= gosper_string(0));
    let mut d: u32 = 0;
    while d < depth
        invariant
            d <= depth,
            current@ == gosper_string(d as nat),
        decreases depth - d,
    {
        let mut next: Vec<char> = Vec::new();
        let mut i: usize = 0;
        while i < current.len()
            invariant
                i <= current.len(),
                next@ == gosper_step(current@.take(i as int)),
            decreases current.len() - i,
        {
            push_rule(&mut next, current[i]);
            assert(current@.take(i + 1).drop_last() =~= current@.take(i as int));
            i += 1;
        }
        assert(current@.take(current.len() as int) =~= current@);
        current = next;
        d += 1;
    }
    current
}

proof fn lemma_rule_moves(c: char)
    ensures
        move_count(gosper_rule(c)) == if c == 'A' || c == 'B' { 7nat } else { 0nat },
{
    if c == 'A' {
        reveal_with_fuel(move_count, 16);
        let r = gosper_rule(c);
        assert(r.len() == 15);
    } else if c == 'B' {
        reveal_with_fuel(move_count, 16);
        let r = gosper_rule(c);
        assert(r.len() == 15);
    } else {
        reveal_with_fuel(move_count, 2);
        assert(gosper_rule(c).drop_last() =~= Seq::<char>::empty());
    }
}

proof fn lemma_move_count_add(a: Seq<char>, b: Seq<char>)
    ensures
        move_count(a + b) == move_count(a) + move_count(b),
    decreases b.len(),
{
    if b.len() > 0 {
        assert((a + b).drop_last() =~= a + b.drop_last());
        lemma_move_count_add(a, b.drop_last());
    } else {
        assert(a + b =~= a);
    }
}

proof fn lemma_step_moves(s: Seq<char>)
    ensures
        move_count(gosper_step(s)) == 7 * move_count(s),
    decreases s.len(),
{
    if s.len() > 0 {
        lemma_step_moves(s.drop_last());
        lemma_rule_moves(s.last());
        lemma_move_count_add(gosper_step(s.drop_last()), gosper_rule(s.last()));
    }
}

/// After `depth` rewriting steps the Gosper string draws 7^depth forward moves,
/// so the curve has 7^depth + 1 points.
pub proof fn gosper_moves_grow_sevenfold(depth: nat)
    ensures
        move_count(gosper_string(depth)) == pow7(depth),
    decreases depth,
{
    if depth == 0 {
        reveal_with_fuel(move_count, 2);
    } else {
        gosper_moves_grow_sevenfold((depth - 1) as nat);
        lemma_step_moves(gosper_string((depth - 1) as nat));
    }
}

/// A symbol of the mirror image: the two moves exchanged and the two turns
/// exchanged.
pub open spec fn mirror_symbol(c: char) -> char {
    if c == 'A' {
        'B'
    } else if c == 'B' {
        'A'
    } else if c == '+' {
        '-'
    } else if c == '-' {
        '+'
    } else {
        c
    }
}

/// A turtle program drawn backwards as a mirror image: read from the end,
/// with `A`/`B` and `+`/`-` exchanged.
pub open spec fn mirrored(s: Seq<char>) -> Seq<char> {
    Seq::new(s.len(), |i: int| mirror_symbol(s[s.len() - 1 - i]))
}

/// Left turns minus right turns in a turtle program.
pub open spec fn net_turn(s: Seq<char>) -> int
    decreases s.len(),
{
    if s.len() == 0 {
        0
    } else {
        net_turn(s.drop_last()) + if s.last() == '+' {
            1int
        } else if s.last() == '-' {
            -1int
        } else {
            0int
        }
    }
}

/// The flowsnake's two productions are mirror images of each other: `B`
/// rewrites to the `A` production read backwards with the moves and the
/// turns exchanged (and the other way round), and each production turns
/// as far left as right, so every rewritten segment keeps its heading.
pub proof fn gosper_productions_mirror_each_other()
    ensures
        gosper_rule('B') == mirrored(gosper_rule('A')),
        gosper_rule('A') == mirrored(gosper_rule('B')),
        net_turn(gosper_rule('A')) == 0,
        net_turn(gosper_rule('B')) == 0,
{
    assert(gosper_rule('B') =~= mirrored(gosper_rule('A')));
    assert(gosper_rule('A') =~= mirrored(gosper_rule('B')));
    reveal_with_fuel(net_turn, 16);
}

} // verus!
