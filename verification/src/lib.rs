//! Lattice topology, obstacle geometry and streaming rules of a D2Q9
//! lattice Boltzmann fluid solver.

pub mod tup2;
pub mod vec2;
pub mod obstacle_board;
pub mod lattice_state;
pub mod fluid_struct;
pub mod conservation;
