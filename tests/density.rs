use q_explore::density::{
    find_densest_cell, find_emptiest_cell, find_most_anomalous_cell, DensityGrid, GridPos,
};
use rand::rngs::StdRng;
use rand::{Rng, SeedableRng};

fn pos(row: i64, col: i64) -> GridPos {
    GridPos { row, col }
}

/// Cells drawn at random over the whole grid square.
fn seeded_positions(seed: u64, n: usize, res: i64) -> Vec<GridPos> {
    let mut rng = StdRng::seed_from_u64(seed);
    (0..n)
        .map(|_| pos(rng.gen_range(0..res), rng.gen_range(0..res)))
        .collect()
}

#[test]
fn test_grid_creation() {
    let grid = DensityGrid::new(50);

    assert_eq!(grid.resolution, 50);
    assert_eq!(grid.cells.len(), 50);
    assert_eq!(grid.cells[0].len(), 50);

    // The center cell is in the circle.
    assert!(grid.in_circle[25][25]);

    // The corners are not.
    assert!(!grid.in_circle[0][0]);
    assert!(!grid.in_circle[0][49]);
    assert!(!grid.in_circle[49][0]);
    assert!(!grid.in_circle[49][49]);
}

#[test]
fn test_add_points() {
    let mut grid = DensityGrid::new(50);

    // The circle's center falls in the middle cell.
    grid.add_points(&[pos(25, 25)]);
    assert_eq!(grid.total_points, 1);
    assert_eq!(grid.cells[25][25], 1);
}

#[test]
fn test_z_scores() {
    let mut grid = DensityGrid::new(50);
    grid.add_points(&seeded_positions(42, 10000, 50));

    let scores = grid.calculate_z_scores();

    for row in 0..50 {
        for col in 0..50 {
            if grid.in_circle[row][col] {
                assert!(scores[row][col].is_some());
            } else {
                assert!(scores[row][col].is_none());
            }
        }
    }
}

#[test]
fn test_find_densest_and_emptiest() {
    let mut grid = DensityGrid::new(50);
    grid.add_points(&seeded_positions(42, 10000, 50));

    let densest = find_densest_cell(&grid).unwrap();
    let emptiest = find_emptiest_cell(&grid).unwrap();

    assert!(densest.z_score.numer > 0);
    assert!(emptiest.z_score.numer < 0);
    assert!(densest.row != emptiest.row || densest.col != emptiest.col);
}

#[test]
fn mask_is_the_inscribed_disc() {
    let grid = DensityGrid::new(4);
    // (2c+1-4)^2 + (2r+1-4)^2 <= 16: only the corners fall out.
    let expected = [
        [false, true, true, false],
        [true, true, true, true],
        [true, true, true, true],
        [false, true, true, false],
    ];
    for r in 0..4 {
        for c in 0..4 {
            assert_eq!(grid.in_circle[r][c], expected[r][c]);
        }
    }
    assert_eq!(grid.cells_in_circle(), 12);
}

#[test]
fn resolution_fifty_has_expected_mask_size() {
    let grid = DensityGrid::new(50);
    let mut n = 0;
    for r in 0..50i64 {
        for c in 0..50i64 {
            if (2 * c + 1 - 50).pow(2) + (2 * r + 1 - 50).pow(2) <= 2500 {
                n += 1;
            }
        }
    }
    assert_eq!(grid.cells_in_circle(), n);
}

#[test]
fn points_outside_the_grid_or_mask_are_dropped() {
    let mut grid = DensityGrid::new(4);
    grid.add_points(&[pos(-1, 2), pos(1, 4), pos(0, 0), pos(3, 3), pos(1, 1), pos(2, 1), pos(1, 1)]);
    assert_eq!(grid.total_points, 3);
    assert_eq!(grid.cells[1][1], 2);
    assert_eq!(grid.cells[2][1], 1);
    assert_eq!(grid.cells[0][0], 0);
    assert_eq!(grid.cells[3][3], 0);
}

#[test]
fn mass_is_conserved_on_a_random_sample() {
    let positions = seeded_positions(7, 5000, 60);
    let mut grid = DensityGrid::new(50);
    grid.add_points(&positions);
    let inside = positions
        .iter()
        .filter(|p| {
            p.row >= 0
                && p.row < 50
                && p.col >= 0
                && p.col < 50
                && grid.in_circle[p.row as usize][p.col as usize]
        })
        .count();
    let sum: usize = grid.cells.iter().flatten().sum();
    assert_eq!(sum, inside);
    assert_eq!(grid.total_points, inside);
    for r in 0..50 {
        for c in 0..50 {
            if !grid.in_circle[r][c] {
                assert_eq!(grid.cells[r][c], 0);
            }
        }
    }
}

#[test]
fn z_score_has_exact_parts() {
    // 12 masked cells, 3 points: a cell with 2 points has
    // z = (2 * 12 - 3) / sqrt(12 * 3).
    let mut grid = DensityGrid::new(4);
    grid.add_points(&[pos(1, 1), pos(1, 1), pos(2, 2)]);
    let scores = grid.calculate_z_scores();
    let z = scores[1][1].unwrap();
    assert_eq!(z.numer, 21);
    assert_eq!(z.denom_sq, 36);
    let empty = scores[0][1].unwrap();
    assert_eq!(empty.numer, -3);
    assert!(scores[0][0].is_none());
    let value = z.numer as f64 / (z.denom_sq as f64).sqrt();
    let expected_mean = 3.0 / 12.0;
    let direct = (2.0 - expected_mean) / f64::sqrt(expected_mean);
    assert!((value - direct).abs() < 1e-12);
}

#[test]
fn empty_grid_has_no_scores_and_no_cells() {
    let grid = DensityGrid::new(50);
    assert!(grid.calculate_z_scores().iter().flatten().all(|s| s.is_none()));
    assert!(find_densest_cell(&grid).is_none());
    assert!(find_emptiest_cell(&grid).is_none());
    assert!(find_most_anomalous_cell(&grid).is_none());
}

#[test]
fn ties_go_to_the_first_cell_in_scan_order() {
    let mut grid = DensityGrid::new(4);
    grid.add_points(&[pos(2, 0), pos(1, 3), pos(0, 1)]);
    let densest = find_densest_cell(&grid).unwrap();
    assert_eq!((densest.row, densest.col), (0, 1));
    let emptiest = find_emptiest_cell(&grid).unwrap();
    assert_eq!((emptiest.row, emptiest.col), (0, 2));
    assert_eq!(emptiest.count, 0);
}

#[test]
fn most_anomalous_cell_flags_its_sign() {
    // 12 cells, 12 points all in one cell: that cell is far above expectation.
    let mut grid = DensityGrid::new(4);
    grid.add_points(&vec![pos(2, 2); 12]);
    let (cell, is_attractor) = find_most_anomalous_cell(&grid).unwrap();
    assert_eq!((cell.row, cell.col), (2, 2));
    assert!(is_attractor);
    assert!(cell.z_score.numer > 0);

    // 11 cells hold 2 points each and one holds none: the empty one stands out.
    let mut grid = DensityGrid::new(4);
    let mut ps = Vec::new();
    for (r, c) in [(0, 1), (0, 2), (1, 0), (1, 1), (1, 2), (1, 3), (2, 0), (2, 1), (2, 2), (2, 3), (3, 1)] {
        ps.push(pos(r, c));
        ps.push(pos(r, c));
    }
    grid.add_points(&ps);
    let (cell, is_attractor) = find_most_anomalous_cell(&grid).unwrap();
    assert_eq!((cell.row, cell.col), (3, 2));
    assert!(!is_attractor);
    assert!(cell.z_score.numer < 0);
}

#[test]
fn uniform_grid_has_zero_scores() {
    let mut grid = DensityGrid::new(2);
    grid.add_points(&[pos(0, 0), pos(0, 1), pos(1, 0), pos(1, 1)]);
    let densest = find_densest_cell(&grid).unwrap();
    assert_eq!(densest.z_score.numer, 0);
    assert_eq!((densest.row, densest.col), (0, 0));
}
