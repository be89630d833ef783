use lattice_fluid::fluid_struct::LBFluidSim;
use lattice_fluid::lattice_state::{
    Cell, DIRECTIONS, E_I, OPPOSITE, WEIGHT_NUMERATORS, WEIGHT_PARTS,
};

#[test]
fn nine_directions() {
    assert_eq!(DIRECTIONS, 9);
    assert_eq!(E_I.len(), DIRECTIONS);
    assert_eq!(OPPOSITE.len(), DIRECTIONS);
    assert_eq!(WEIGHT_NUMERATORS.len(), DIRECTIONS);
    assert_eq!(E_I[0], (0, 0));
    assert_eq!(E_I[1], (1, 0));
    assert_eq!(E_I[2], (0, 1));
    assert_eq!(E_I[3], (-1, 0));
    assert_eq!(E_I[4], (0, -1));
    assert_eq!(E_I[5], (1, 1));
    assert_eq!(E_I[6], (-1, 1));
    assert_eq!(E_I[7], (-1, -1));
    assert_eq!(E_I[8], (1, -1));
}

#[test]
fn opposite_reverses_both_components() {
    assert_eq!(OPPOSITE, [0, 3, 4, 1, 2, 7, 8, 5, 6]);
    for q in 0..9 {
        assert_eq!(E_I[OPPOSITE[q]], (-E_I[q].0, -E_I[q].1));
        assert_eq!(OPPOSITE[OPPOSITE[q]], q);
        assert_eq!(WEIGHT_NUMERATORS[OPPOSITE[q]], WEIGHT_NUMERATORS[q]);
    }
}

#[test]
fn weights_add_up_to_one() {
    assert_eq!(WEIGHT_NUMERATORS, [16, 4, 4, 4, 4, 1, 1, 1, 1]);
    assert_eq!(WEIGHT_PARTS, 36);
    let sum: u32 = WEIGHT_NUMERATORS.iter().map(|w| *w as u32).sum();
    assert_eq!(sum, WEIGHT_PARTS as u32);
    // Rest 4/9, along an axis 1/9, along a diagonal 1/36.
    assert_eq!(WEIGHT_NUMERATORS[0] as f64 / WEIGHT_PARTS as f64, 4.0 / 9.0);
    assert_eq!(WEIGHT_NUMERATORS[3] as f64 / WEIGHT_PARTS as f64, 1.0 / 9.0);
    assert_eq!(WEIGHT_NUMERATORS[7] as f64 / WEIGHT_PARTS as f64, 1.0 / 36.0);
}

#[test]
fn weighted_steps_are_isotropic() {
    let mut first = (0i32, 0i32);
    let mut second = (0i32, 0i32, 0i32);
    for q in 0..9 {
        let w = WEIGHT_NUMERATORS[q] as i32;
        let (x, y) = (E_I[q].0 as i32, E_I[q].1 as i32);
        first = (first.0 + w * x, first.1 + w * y);
        second = (second.0 + w * x * x, second.1 + w * y * y, second.2 + w * x * y);
    }
    assert_eq!(first, (0, 0));
    assert_eq!(second, (12, 12, 0));
}

#[test]
fn a_cell_is_an_obstacle_by_default() {
    assert_eq!(Cell::default(), Cell::Obstacle);
    assert_ne!(Cell::Fluid, Cell::Obstacle);
}

#[test]
fn index_wraps_around_the_axis() {
    assert_eq!(LBFluidSim::idx_wrap(0, 5), 0);
    assert_eq!(LBFluidSim::idx_wrap(4, 5), 4);
    assert_eq!(LBFluidSim::idx_wrap(5, 5), 0);
    assert_eq!(LBFluidSim::idx_wrap(-1, 5), 4);
    assert_eq!(LBFluidSim::idx_wrap(-5, 5), 0);
    assert_eq!(LBFluidSim::idx_wrap(-6, 5), 4);
    assert_eq!(LBFluidSim::idx_wrap(12, 5), 2);
    assert_eq!(LBFluidSim::idx_wrap(-1, 1), 0);
    assert_eq!(LBFluidSim::idx_wrap(isize::MIN, 7), isize::MIN.rem_euclid(7) as usize);
    assert_eq!(LBFluidSim::idx_wrap(isize::MAX, isize::MAX as usize), 0);
}

#[test]
fn neighbor_inside_the_grid() {
    let shape = (4, 6);
    assert_eq!(LBFluidSim::neighbor_coord((2, 3), 0, shape), (2, 3));
    assert_eq!(LBFluidSim::neighbor_coord((2, 3), 1, shape), (3, 3));
    assert_eq!(LBFluidSim::neighbor_coord((2, 3), 2, shape), (2, 4));
    assert_eq!(LBFluidSim::neighbor_coord((2, 3), 3, shape), (1, 3));
    assert_eq!(LBFluidSim::neighbor_coord((2, 3), 4, shape), (2, 2));
    assert_eq!(LBFluidSim::neighbor_coord((2, 3), 5, shape), (3, 4));
    assert_eq!(LBFluidSim::neighbor_coord((2, 3), 6, shape), (1, 4));
    assert_eq!(LBFluidSim::neighbor_coord((2, 3), 7, shape), (1, 2));
    assert_eq!(LBFluidSim::neighbor_coord((2, 3), 8, shape), (3, 2));
}

#[test]
fn neighbor_across_the_edges() {
    let shape = (4, 6);
    assert_eq!(LBFluidSim::neighbor_coord((3, 0), 1, shape), (0, 0));
    assert_eq!(LBFluidSim::neighbor_coord((0, 0), 3, shape), (3, 0));
    assert_eq!(LBFluidSim::neighbor_coord((0, 5), 2, shape), (0, 0));
    assert_eq!(LBFluidSim::neighbor_coord((0, 0), 4, shape), (0, 5));
    assert_eq!(LBFluidSim::neighbor_coord((0, 0), 7, shape), (3, 5));
    assert_eq!(LBFluidSim::neighbor_coord((3, 5), 5, shape), (0, 0));
    assert_eq!(LBFluidSim::neighbor_coord((0, 5), 6, shape), (3, 0));
    assert_eq!(LBFluidSim::neighbor_coord((3, 0), 8, shape), (0, 5));
}
