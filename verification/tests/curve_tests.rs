use rat_king::curves::{gosper_symbols, meander_points, peano_recursive};

fn get_peano_points(n: usize) -> Vec<(usize, usize)> {
    let mut points = Vec::new();
    peano_recursive(0, 0, n as i32, false, false, &mut points);
    points
}

fn assert_adjacent_steps(points: &[(usize, usize)]) {
    for i in 1..points.len() {
        let (x1, y1) = points[i - 1];
        let (x2, y2) = points[i];
        let dx = (x1 as i32 - x2 as i32).abs();
        let dy = (y1 as i32 - y2 as i32).abs();
        assert!(
            (dx == 1 && dy == 0) || (dx == 0 && dy == 1),
            "Points {} and {} are not adjacent: ({},{}) -> ({},{})",
            i - 1,
            i,
            x1,
            y1,
            x2,
            y2
        );
    }
}

#[test]
fn peano_visits_all_cells_depth1() {
    let points = get_peano_points(3);
    assert_eq!(points.len(), 9, "Should visit 9 cells");

    let mut visited = [[false; 3]; 3];
    for (x, y) in &points {
        assert!(*x < 3 && *y < 3, "Coords out of bounds: ({}, {})", x, y);
        visited[*x][*y] = true;
    }

    for x in 0..3 {
        for y in 0..3 {
            assert!(visited[x][y], "Cell ({}, {}) not visited", x, y);
        }
    }
}

#[test]
fn peano_continuous_depth1() {
    let points = get_peano_points(3);
    assert_adjacent_steps(&points);
}

#[test]
fn peano_visits_all_cells_depth2() {
    let points = get_peano_points(9);
    assert_eq!(points.len(), 81, "Should visit 81 cells");

    let mut visited = vec![vec![false; 9]; 9];
    for (x, y) in &points {
        assert!(*x < 9 && *y < 9, "Coords out of bounds: ({}, {})", x, y);
        visited[*x][*y] = true;
    }

    for x in 0..9 {
        for y in 0..9 {
            assert!(visited[x][y], "Cell ({}, {}) not visited", x, y);
        }
    }
}

#[test]
fn peano_continuous_depth2() {
    let points = get_peano_points(9);
    assert_adjacent_steps(&points);
}

#[test]
fn peano_depth1_exact_order() {
    assert_eq!(
        get_peano_points(3),
        vec![(0, 0), (1, 0), (2, 0), (2, 1), (1, 1), (0, 1), (0, 2), (1, 2), (2, 2)]
    );
}

#[test]
fn peano_depth3_covers_and_continues() {
    let points = get_peano_points(27);
    assert_eq!(points.len(), 729);
    let mut seen = vec![false; 729];
    for (x, y) in &points {
        assert!(!seen[x * 27 + y]);
        seen[x * 27 + y] = true;
    }
    assert_adjacent_steps(&points);
    assert_eq!(points[0], (0, 0));
    assert_eq!(points[728], (26, 26));
}

#[test]
fn peano_appends_with_offset_and_flips() {
    let mut points = vec![(99, 99)];
    peano_recursive(3, 6, 3, true, false, &mut points);
    assert_eq!(points.len(), 10);
    assert_eq!(points[0], (99, 99));
    assert_eq!(points[1], (5, 6));
    assert_adjacent_steps(&points[1..]);
}

#[test]
fn peano_size_one_is_single_cell() {
    assert_eq!(get_peano_points(1), vec![(0, 0)]);
}

#[test]
fn meander_rows_alternate() {
    assert_eq!(
        meander_points(3),
        vec![(0, 0), (1, 0), (2, 0), (2, 1), (1, 1), (0, 1), (0, 2), (1, 2), (2, 2)]
    );
    assert!(meander_points(0).is_empty());
}

#[test]
fn meander_covers_grid_continuously() {
    let points = meander_points(12);
    assert_eq!(points.len(), 144);
    let mut seen = vec![false; 144];
    for (x, y) in &points {
        assert!(!seen[y * 12 + x]);
        seen[y * 12 + x] = true;
    }
    assert_adjacent_steps(&points);
}

#[test]
fn gosper_depth_zero_is_axiom() {
    assert_eq!(gosper_symbols(0), vec!['A']);
}

#[test]
fn gosper_moves_grow_sevenfold() {
    for depth in 0..4u32 {
        let moves = gosper_symbols(depth).iter().filter(|c| **c == 'A' || **c == 'B').count();
        assert_eq!(moves, 7usize.pow(depth));
    }
    let one: String = gosper_symbols(1).into_iter().collect();
    assert_eq!(one, "A-B--B+A++AA+B-");
}

#[test]
fn peano_side_four_uses_unit_blocks() {
    // Side 4 splits into blocks of side 1: nine cells, as for side 3.
    assert_eq!(get_peano_points(4), get_peano_points(3));
}

#[test]
fn peano_accepts_negative_origin() {
    let mut points = Vec::new();
    peano_recursive(-1, -2, 1, false, false, &mut points);
    assert_eq!(points, vec![((-1i32) as usize, (-2i32) as usize)]);
    let mut points = Vec::new();
    peano_recursive(-3, 0, 3, false, false, &mut points);
    assert_eq!(points.len(), 9);
    assert_eq!(points[0], ((-3i32) as usize, 0));
    assert_eq!(points[2], ((-1i32) as usize, 0));
}
