//! A spin-lattice Monte Carlo simulator: an Ising-type model on a square
//! grid, under either a regular 4-neighbor torus topology or a randomly
//! pruned irregular graph, advanced by Metropolis sweeps and driven by a
//! hysteresis (field) or phase (temperature) sweep protocol, with worker
//! status aggregation for concurrent multi-run execution.

pub mod child;
pub mod cli;
pub mod mathy;
pub mod matrix;
pub mod network;
pub mod rng;
pub mod simulation;
