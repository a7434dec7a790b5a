//! Verified structural core of a direct-summation Biot-Savart field solver.
//!
//! The solver computes the magnetic field produced by a discretized
//! current-density distribution by brute-force pairwise superposition over a
//! three-dimensional grid. Everything structural is verified here: packing and
//! shape-checking of nested input grids, the row-major enumeration of grid
//! points, the strictly ordered accumulation over source points (which makes
//! floating-point output reproducible), the coarsened sampling lattice used
//! for visualization, and byte-exact assembly of the visualization script.
//! The floating-point arithmetic itself is supplied by callers as closures,
//! since real-number computation cannot be expressed in verified code.

pub mod grid;
pub mod index;
pub mod script;
pub mod solver;
