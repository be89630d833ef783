use lattice_fluid::obstacle_board::{GridError, GridStats, ObstacleBoard};
use lattice_fluid::tup2::Tup2;
use lattice_fluid::vec2::Vec2;

#[test]
fn grid_of_two_by_two_is_accepted() {
    let stats = GridStats::new((2, 2)).unwrap();
    assert_eq!(stats.shape(), (2, 2));
    assert_eq!(stats.max_dim(), 1);
}

#[test]
fn grid_keeps_its_shape() {
    let stats = GridStats::new((200, 100)).unwrap();
    assert_eq!(stats.shape(), (200, 100));
    assert_eq!(stats.max_dim(), 199);
    let stats = GridStats::new((3, 11)).unwrap();
    assert_eq!(stats.shape(), (3, 11));
    assert_eq!(stats.max_dim(), 10);
}

#[test]
fn grid_with_a_dimension_below_two_is_refused() {
    assert_eq!(GridStats::new((1, 10)).err(), Some(GridError::DimensionTooSmall));
    assert_eq!(GridStats::new((10, 1)).err(), Some(GridError::DimensionTooSmall));
    assert_eq!(GridStats::new((0, 0)).err(), Some(GridError::DimensionTooSmall));
    assert_eq!(GridStats::new((0, 7)).err(), Some(GridError::DimensionTooSmall));
    assert_eq!(GridStats::new((1, 1)).err(), Some(GridError::DimensionTooSmall));
    assert!(GridStats::new((2, 3)).is_ok());
}

#[test]
fn empty_board_has_no_obstacle() {
    let board = ObstacleBoard::new_empty(GridStats::new((4, 7)).unwrap());
    assert_eq!(board.grid_stats().shape(), (4, 7));
    for i in 0..4 {
        for j in 0..7 {
            assert!(!board.exist_obstacle(i, j));
        }
    }
}

#[test]
fn linear_index_runs_along_the_first_axis() {
    let board = ObstacleBoard::new_empty(GridStats::new((4, 7)).unwrap());
    assert_eq!(board.get_index(0, 0), 0);
    assert_eq!(board.get_index(3, 0), 3);
    assert_eq!(board.get_index(0, 1), 4);
    assert_eq!(board.get_index(2, 5), 22);
    assert_eq!(board.get_index(3, 6), 27);
}

#[test]
fn set_obstacle_blocks_one_cell() {
    let mut board = ObstacleBoard::new_empty(GridStats::new((4, 7)).unwrap());
    board.set_obstacle(2, 5);
    for i in 0..4 {
        for j in 0..7 {
            assert_eq!(board.exist_obstacle(i, j), (i, j) == (2, 5));
        }
    }
    board.set_obstacle(2, 5);
    board.set_obstacle(0, 6);
    for i in 0..4 {
        for j in 0..7 {
            assert_eq!(board.exist_obstacle(i, j), (i, j) == (2, 5) || (i, j) == (0, 6));
        }
    }
}

#[test]
fn board_from_a_list_of_cells() {
    let stats = GridStats::new((3, 3)).unwrap();
    let board = ObstacleBoard::new(stats, vec![(0, 1), (2, 2), (0, 1)]);
    for i in 0..3 {
        for j in 0..3 {
            assert_eq!(board.exist_obstacle(i, j), (i, j) == (0, 1) || (i, j) == (2, 2));
        }
    }
    let none = ObstacleBoard::new(stats, Vec::new());
    for i in 0..3 {
        for j in 0..3 {
            assert!(!none.exist_obstacle(i, j));
        }
    }
}

#[test]
fn pair_keeps_its_components() {
    let t = Tup2::new(3u8, 9u8);
    assert_eq!((t.0, t.1), (3, 9));
    let v = t.to_vec2();
    assert_eq!((v.x, v.y), (3, 9));
    let w = Vec2::new("a", "b");
    assert_eq!((w.x, w.y), ("a", "b"));
}

#[test]
fn coordinates_below_zero_become_index_zero() {
    let t = Tup2(-3isize, 12isize).to_usize();
    assert_eq!((t.0, t.1), (0, 12));
    let t = Tup2(0isize, -1isize).to_usize();
    assert_eq!((t.0, t.1), (0, 0));
    let t = Tup2(isize::MAX, isize::MIN).to_usize();
    assert_eq!((t.0, t.1), (isize::MAX as usize, 0));
}

#[test]
fn coordinates_narrow_to_the_nearest_32_bit_value() {
    let v = Vec2::new(17i64, -4i64).to_i32();
    assert_eq!((v.x, v.y), (17, -4));
    let v = Vec2::new(i64::MAX, i64::MIN).to_i32();
    assert_eq!((v.x, v.y), (i32::MAX, i32::MIN));
    let v = Vec2::new(i32::MAX as i64 + 1, i32::MIN as i64 - 1).to_i32();
    assert_eq!((v.x, v.y), (i32::MAX, i32::MIN));
    let v = Vec2::new(i32::MAX as i64, i32::MIN as i64).to_i32();
    assert_eq!((v.x, v.y), (i32::MAX, i32::MIN));
}

#[test]
fn pairs_add_and_subtract_by_component() {
    let sum = Tup2(3i32, -4i32) + Tup2(10, 20);
    assert_eq!((sum.0, sum.1), (13, 16));
    let difference = Tup2(3i32, -4i32) - Tup2(10, 20);
    assert_eq!((difference.0, difference.1), (-7, -24));
    let product = Tup2(3i32, -4i32) * Tup2(10, 20);
    assert_eq!((product.0, product.1), (30, -80));
    let negation = -Tup2(3i32, -4i32);
    assert_eq!((negation.0, negation.1), (-3, 4));
}

#[test]
fn named_pairs_add_and_divide_by_component() {
    let sum = Vec2::new(3i64, -4i64) + Vec2::new(10, 20);
    assert_eq!((sum.x, sum.y), (13, 16));
    let difference = Vec2::new(3i64, -4i64) - Vec2::new(10, 20);
    assert_eq!((difference.x, difference.y), (-7, -24));
    let product = Vec2::new(3i64, -4i64) * Vec2::new(10, 20);
    assert_eq!((product.x, product.y), (30, -80));
    let quotient = Vec2::new(30u32, 45u32) / Vec2::new(4, 9);
    assert_eq!((quotient.x, quotient.y), (7, 5));
    let negation = -Vec2::new(3i64, -4i64);
    assert_eq!((negation.x, negation.y), (-3, 4));
    let floats = Vec2::new(1.5f32, 2.0f32) + Vec2::new(0.25, -2.0);
    assert_eq!((floats.x, floats.y), (1.75, 0.0));
}
