use lattice_fluid::obstacle_board::{GridStats, ObstacleBoard};
use lattice_fluid::tup2::Tup2;

fn empty_board(rows: usize, cols: usize) -> ObstacleBoard {
    ObstacleBoard::new_empty(GridStats::new((rows, cols)).unwrap())
}

fn blocked_cells(board: &ObstacleBoard) -> Vec<(usize, usize)> {
    let (rows, cols) = board.grid_stats().shape();
    let mut found = Vec::new();
    for i in 0..rows {
        for j in 0..cols {
            if board.exist_obstacle(i, j) {
                found.push((i, j));
            }
        }
    }
    found
}

#[test]
fn diagonal_segment_blocks_six_cells() {
    let mut board = empty_board(10, 10);
    board.set_line(Tup2(0, 0), Tup2(5, 5));
    assert_eq!(
        blocked_cells(&board),
        vec![(0, 0), (1, 1), (2, 2), (3, 3), (4, 4), (5, 5)]
    );
}

#[test]
fn axis_segment_blocks_six_cells() {
    let mut board = empty_board(10, 10);
    board.set_line(Tup2(0, 0), Tup2(5, 0));
    assert_eq!(
        blocked_cells(&board),
        vec![(0, 0), (1, 0), (2, 0), (3, 0), (4, 0), (5, 0)]
    );
}

#[test]
fn segment_along_second_axis() {
    let mut board = empty_board(6, 8);
    board.set_line(Tup2(3, 1), Tup2(3, 6));
    assert_eq!(
        blocked_cells(&board),
        vec![(3, 1), (3, 2), (3, 3), (3, 4), (3, 5), (3, 6)]
    );
}

#[test]
fn anti_diagonal_segment() {
    let mut board = empty_board(10, 10);
    board.set_line(Tup2(1, 6), Tup2(5, 2));
    assert_eq!(
        blocked_cells(&board),
        vec![(1, 6), (2, 5), (3, 4), (4, 3), (5, 2)]
    );
}

#[test]
fn shallow_segment_rounds_halves_up() {
    let mut board = empty_board(10, 10);
    // The line passes (1, 0.5): the half goes to the upper cell.
    board.set_line(Tup2(0, 0), Tup2(2, 1));
    assert_eq!(blocked_cells(&board), vec![(0, 0), (1, 1), (2, 1)]);
}

#[test]
fn shallow_segment_has_one_cell_per_step() {
    let mut board = empty_board(12, 12);
    board.set_line(Tup2(0, 0), Tup2(9, 3));
    // Values of the line at 0..=9: 0, 1/3, 2/3, 1, 4/3, 5/3, 2, 7/3, 8/3, 3.
    assert_eq!(
        blocked_cells(&board),
        vec![
            (0, 0),
            (1, 0),
            (2, 1),
            (3, 1),
            (4, 1),
            (5, 2),
            (6, 2),
            (7, 2),
            (8, 3),
            (9, 3)
        ]
    );
}

#[test]
fn steep_segment_is_driven_by_the_second_axis() {
    let mut board = empty_board(12, 12);
    board.set_line(Tup2(2, 1), Tup2(4, 7));
    // Values of the line at 1..=7: 2, 7/3, 8/3, 3, 10/3, 11/3, 4.
    assert_eq!(
        blocked_cells(&board),
        vec![(2, 1), (2, 2), (3, 3), (3, 4), (3, 5), (4, 6), (4, 7)]
    );
}

#[test]
fn segment_is_the_same_in_both_directions() {
    let mut forward = empty_board(20, 20);
    let mut backward = empty_board(20, 20);
    forward.set_line(Tup2(2, 17), Tup2(15, 4));
    backward.set_line(Tup2(15, 4), Tup2(2, 17));
    assert_eq!(blocked_cells(&forward), blocked_cells(&backward));
    let mut forward = empty_board(20, 20);
    let mut backward = empty_board(20, 20);
    forward.set_line(Tup2(1, 3), Tup2(18, 10));
    backward.set_line(Tup2(18, 10), Tup2(1, 3));
    assert_eq!(blocked_cells(&forward), blocked_cells(&backward));
    assert_eq!(blocked_cells(&forward).len(), 18);
}

#[test]
fn segment_between_equal_cells_is_that_cell() {
    let mut board = empty_board(5, 5);
    board.set_line(Tup2(3, 2), Tup2(3, 2));
    assert_eq!(blocked_cells(&board), vec![(3, 2)]);
}

#[test]
fn segment_keeps_earlier_obstacles() {
    let mut board = empty_board(5, 5);
    board.set_obstacle(4, 4);
    board.set_line(Tup2(0, 0), Tup2(0, 2));
    assert_eq!(blocked_cells(&board), vec![(0, 0), (0, 1), (0, 2), (4, 4)]);
}

#[test]
fn segment_is_connected() {
    let mut board = empty_board(40, 40);
    board.set_line(Tup2(3, 5), Tup2(36, 17));
    let cells = blocked_cells(&board);
    assert_eq!(cells.len(), 34);
    for pair in cells.windows(2) {
        assert_eq!(pair[1].0, pair[0].0 + 1);
        assert!(pair[1].1 == pair[0].1 || pair[1].1 == pair[0].1 + 1);
    }
    assert!(board.exist_obstacle(3, 5));
    assert!(board.exist_obstacle(36, 17));
}

#[test]
fn polyline_blocks_each_leg() {
    let mut board = empty_board(8, 8);
    board.set_piecewise_curve(vec![Tup2(1, 1), Tup2(4, 1), Tup2(4, 3)]);
    assert_eq!(
        blocked_cells(&board),
        vec![(1, 1), (2, 1), (3, 1), (4, 1), (4, 2), (4, 3)]
    );
}

#[test]
fn polyline_of_two_vertices_is_one_segment() {
    let mut curve = empty_board(8, 8);
    let mut line = empty_board(8, 8);
    curve.set_piecewise_curve(vec![Tup2(0, 7), Tup2(7, 0)]);
    line.set_line(Tup2(0, 7), Tup2(7, 0));
    assert_eq!(blocked_cells(&curve), blocked_cells(&line));
    assert_eq!(blocked_cells(&curve).len(), 8);
}

#[test]
fn closed_polyline() {
    let mut board = empty_board(6, 6);
    board.set_piecewise_curve(vec![
        Tup2(1, 1),
        Tup2(4, 1),
        Tup2(4, 4),
        Tup2(1, 4),
        Tup2(1, 1),
    ]);
    let cells = blocked_cells(&board);
    assert_eq!(cells.len(), 12);
    assert!(!board.exist_obstacle(2, 2));
    assert!(!board.exist_obstacle(0, 0));
    assert!(board.exist_obstacle(1, 3));
    assert!(board.exist_obstacle(3, 4));
}
