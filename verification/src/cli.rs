//! Plain argument bundles for the two sweep protocols, as the library
//! consumes them: every scalar in fixed-point units (see `mathy`). The
//! command-line front end parses and validates flags, then fills these.

use vstd::prelude::*;

verus! {

/// Arguments of a hysteresis run: lattice side, temperatures to run at,
/// equilibration cap, field extreme and step, and the seeds to fan out over.
#[derive(Debug, Clone)]
pub struct ArgsHysteresis {
    pub size: usize,
    pub temps: Vec<i64>,
    pub eq_steps: u64,
    pub h_max: i64,
    pub h_step: i64,
    pub seeds: Vec<u64>,
}

/// Arguments of a phase run: lattice side, equilibration caps to fan out
/// over, temperature range and step, and the seeds to fan out over.
#[derive(Debug, Clone)]
pub struct ArgsPhase {
    pub size: usize,
    pub eq_steps: Vec<u64>,
    pub t_min: i64,
    pub t_max: i64,
    pub t_step: i64,
    pub seeds: Vec<u64>,
}

/// Marker for a rejected or missing command-line invocation; the run aborts
/// before any worker starts.
#[derive(Debug)]
pub struct ArgError {}

impl ArgError {
    /// The error carries no message of its own.
    pub fn message(&self) -> (r: String)
        ensures
            r@ == ""@,
    {
        "".to_owned()
    }
}

} // verus!
