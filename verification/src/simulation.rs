//! The Metropolis engine: a lattice plus thermodynamic parameters and the
//! running energy / magnetization bookkeeping, advanced one full-lattice
//! sweep at a time, with the equilibrium test and the two sweep protocols
//! (hysteresis and phase) on top.
//!
//! All thermodynamic scalars are fixed-point values (see `mathy`): the
//! Hamiltonian components are recomputed from scratch on every accepted flip,
//! so the tracked fields always equal the exact sums over the lattice and no
//! drift can accumulate.

use vstd::prelude::*;

use crate::mathy::{
    div_tz, lemma_cold_rejects_uphill, metropolis_accepts, spec_accepts, spec_div_tz, SCALE,
};
use crate::matrix::{lemma_pos_in_bounds, pos_of_index, spec_index_of_pos};
use crate::network::{
    lemma_occ_nonneg, lemma_occ_prefix, lemma_occ_push, lemma_push_contains,
    spec_count_symmetric, spec_occ, spin_ok, Network, NetworkType,
};
use crate::rng;

verus! {

/// Largest lattice side the engine itself accepts: keeps every energy sum
/// within 64-bit fixed-point range.
pub const SIM_MAX_SIZE: usize = 1000;

/// Magnitude caps on the configured scalars, in fixed-point units.
pub const TEMP_LIMIT: i64 = 2_000_000_000_000_000;

pub const KB_LIMIT: i64 = 2_000_000_000_000;

pub const J_LIMIT: i64 = 1_000_000_000_000;

pub const H_LIMIT: i64 = 4_000_000_000_000;

/// Cap on the configured equilibration sweep cap itself.
pub const EQ_STEPS_LIMIT: u64 = 1_000_000_000_000;

/// Largest magnitude a single-flip energy difference can take under the
/// caps above.
pub const DELTA_H_LIMIT: i64 = 24_000_000_000_000;

/// Largest magnitude of either Hamiltonian component under the caps above.
pub const HAM_PART_LIMIT: i64 = 4_100_000_000_000_000_000;

/// Safety bound on the aggregated (incrementally tracked) energies.
pub const AGR_LIMIT: i128 = 50_000_000_000_000_000_000_000_000_000_000;

/// Aggregated-energy bound under which a single flip may be applied.
pub const AGR_EVOLVE_LIMIT: i128 = 31_000_000_000_000_000_000_000_000_000_000;

/// Aggregated-energy bound under which a full sweep may be run.
pub const AGR_SWEEP_LIMIT: i128 = 30_000_000_000_000_000_000_000_000_000_000;

/// How much one full sweep can move an aggregated energy.
pub const AGR_SWEEP_GROWTH: i128 = 24_000_000_000_000_000_000;

#[derive(Debug, Clone)]
pub struct SimulationConfig {
    pub temp: i64,
    pub h: i64,
    pub j: i64,
    pub kb: i64,
    pub equilibrium_steps: u64,
    pub network_type: NetworkType,
    pub eq_threshold: i64,
}

impl SimulationConfig {
    /// The configured scalars sit inside the fixed-point working range.
    pub open spec fn ok(self) -> bool {
        &&& 0 <= self.temp <= TEMP_LIMIT
        &&& 0 <= self.kb <= KB_LIMIT
        &&& -J_LIMIT <= self.j <= J_LIMIT
        &&& -H_LIMIT <= self.h <= H_LIMIT
        &&& 0 <= self.eq_threshold
        &&& self.equilibrium_steps <= EQ_STEPS_LIMIT
    }
}

#[derive(Debug, Clone)]
pub struct HysteresisConfig {
    pub h_min: i64,
    pub h_max: i64,
    pub h_step: i64,
}

impl HysteresisConfig {
    /// A usable field range: a proper interval of bounded magnitude, swept
    /// with a positive step.
    pub open spec fn ok(self) -> bool {
        &&& -1_000_000_000_000 <= self.h_min
        &&& self.h_min < self.h_max
        &&& self.h_max <= 1_000_000_000_000
        &&& 0 < self.h_step <= 1_000_000_000_000
    }
}

#[derive(Debug, Clone)]
pub struct PhaseConfig {
    pub t_min: i64,
    pub t_max: i64,
    pub t_step: i64,
    pub s0: i64,
}

impl PhaseConfig {
    /// A usable temperature range: bounded ceiling, positive step.
    pub open spec fn ok(self) -> bool {
        &&& 0 <= self.t_max <= 1_000_000_000_000_000
        &&& 0 < self.t_step <= 1_000_000_000_000
    }
}

/// One emitted data point of a sweep protocol: elapsed sweeps, sweeps of the
/// last equilibration, the swept parameter (field or temperature), and the
/// equilibrated magnetization and energies. `forced` marks a point whose
/// equilibration hit the iteration cap instead of the convergence test.
#[derive(Debug, Clone, PartialEq, Eq, Structural)]
pub struct SweepRecord {
    pub time: u64,
    pub n: u64,
    pub param: i64,
    pub mag: i64,
    pub energy: i64,
    pub energy_agr: i128,
    pub forced: bool,
}

/// Sum of the first `k` spins.
pub open spec fn spec_spin_sum(spins: Seq<i8>, k: int) -> int
    decreases k,
{
    if k <= 0 {
        0
    } else {
        spec_spin_sum(spins, k - 1) + spins[k - 1]
    }
}

/// Sum of the spins at the first `k` listed neighbor sites.
pub open spec fn spec_nsum(spins: Seq<i8>, neigh: Seq<usize>, k: int) -> int
    decreases k,
{
    if k <= 0 {
        0
    } else {
        spec_nsum(spins, neigh, k - 1) + spins[neigh[k - 1] as int]
    }
}

/// Neighbor-spin sum of the site with linear index `i`.
pub open spec fn spec_site_nsum(spins: Seq<i8>, adj: Seq<Vec<usize>>, i: int) -> int {
    spec_nsum(spins, adj[i]@, adj[i]@.len() as int)
}

/// Sum over the first `k` sites of the site's spin times its neighbor-spin
/// sum; each undirected bond is counted once from either end.
pub open spec fn spec_bond_sum(spins: Seq<i8>, adj: Seq<Vec<usize>>, k: int) -> int
    decreases k,
{
    if k <= 0 {
        0
    } else {
        spec_bond_sum(spins, adj, k - 1) + spins[k - 1] * spec_site_nsum(spins, adj, k - 1)
    }
}

/// Internal (pairwise coupling) energy: `-J/2` times the bond sum, the half
/// correcting for the double counting, truncated toward zero.
pub open spec fn spec_h_internal(j: int, bond: int) -> int {
    spec_div_tz(-(j * bond), 2)
}

/// External (field) energy: `-H` times the total spin sum.
pub open spec fn spec_h_external(h: int, spin_sum: int) -> int {
    -(h * spin_sum)
}

/// Number of degree-0 ("free") sites among the first `k`.
pub open spec fn spec_free_count(adj: Seq<Vec<usize>>, k: int) -> int
    decreases k,
{
    if k <= 0 {
        0
    } else {
        spec_free_count(adj, k - 1) + if adj[k - 1]@.len() == 0 {
            1int
        } else {
            0int
        }
    }
}

/// The sum of `k` spins lies within `[-k, k]`.
pub proof fn lemma_spin_sum_bounds(spins: Seq<i8>, k: int)
    requires
        0 <= k <= spins.len(),
        forall|i: int| 0 <= i < spins.len() ==> spin_ok(#[trigger] spins[i]),
    ensures
        -k <= spec_spin_sum(spins, k) <= k,
    decreases k,
{
    if k > 0 {
        lemma_spin_sum_bounds(spins, k - 1);
    }
}

/// A neighbor-spin sum over `k` in-range neighbors lies within `[-k, k]`.
proof fn lemma_nsum_bounds(spins: Seq<i8>, neigh: Seq<usize>, k: int)
    requires
        0 <= k <= neigh.len(),
        forall|i: int| 0 <= i < spins.len() ==> spin_ok(#[trigger] spins[i]),
        forall|i: int| 0 <= i < neigh.len() ==> (#[trigger] neigh[i]) < spins.len(),
    ensures
        -k <= spec_nsum(spins, neigh, k) <= k,
    decreases k,
{
    if k > 0 {
        lemma_nsum_bounds(spins, neigh, k - 1);
    }
}

/// The bond sum over `k` sites of degree at most 8 lies within `[-8k, 8k]`.
proof fn lemma_bond_sum_bounds(spins: Seq<i8>, adj: Seq<Vec<usize>>, k: int)
    requires
        0 <= k <= adj.len(),
        k <= spins.len(),
        forall|i: int| 0 <= i < spins.len() ==> spin_ok(#[trigger] spins[i]),
        forall|i: int| 0 <= i < adj.len() ==> (#[trigger] adj[i])@.len() <= 8,
        forall|i: int, t: int|
            0 <= i < adj.len() && 0 <= t < adj[i]@.len() ==> (#[trigger] adj[i]@[t])
                < spins.len(),
    ensures
        -8 * k <= spec_bond_sum(spins, adj, k) <= 8 * k,
    decreases k,
{
    if k > 0 {
        lemma_bond_sum_bounds(spins, adj, k - 1);
        assert forall|t: int| 0 <= t < adj[k - 1]@.len() implies (#[trigger] adj[k - 1]@[t])
            < spins.len() by {}
        lemma_nsum_bounds(spins, adj[k - 1]@, adj[k - 1]@.len() as int);
        let s = spins[k - 1];
        let ns = spec_site_nsum(spins, adj, k - 1);
        assert(-8 <= s * ns <= 8) by (nonlinear_arith)
            requires (s == 1 || s == -1), -8 <= ns <= 8;
    }
}

/// Replacing one spin shifts the spin sum by exactly the difference.
pub proof fn lemma_spin_sum_update(spins: Seq<i8>, updated: Seq<i8>, i: int, v: i8, k: int)
    requires
        0 <= i < spins.len(),
        updated == spins.update(i, v),
        0 <= k <= spins.len(),
    ensures
        spec_spin_sum(updated, k) == if i < k {
            spec_spin_sum(spins, k) - spins[i] + v
        } else {
            spec_spin_sum(spins, k)
        },
    decreases k,
{
    if k > 0 {
        lemma_spin_sum_update(spins, updated, i, v, k - 1);
    }
}

/// Sum over the first `k` sites of the site's spin weighted by how often
/// the first `j` entries of a neighbor list mention it.
spec fn spec_weighted_prefix(spins: Seq<i8>, neigh: Seq<usize>, j: int, k: int) -> int
    decreases k,
{
    if k <= 0 {
        0
    } else {
        spec_weighted_prefix(spins, neigh, j, k - 1) + spec_occ(neigh, (k - 1) as usize, j)
            * spins[k - 1]
    }
}

proof fn lemma_weighted_prefix_zero(spins: Seq<i8>, neigh: Seq<usize>, k: int)
    ensures
        spec_weighted_prefix(spins, neigh, 0, k) == 0,
    decreases k,
{
    if k > 0 {
        lemma_weighted_prefix_zero(spins, neigh, k - 1);
    }
}

/// Counting one more neighbor entry adds that neighbor's spin to the
/// weighted sum, provided the site range covers it.
proof fn lemma_weighted_prefix_step(spins: Seq<i8>, neigh: Seq<usize>, j: int, k: int)
    requires
        0 <= j < neigh.len(),
        k <= usize::MAX,
    ensures
        spec_weighted_prefix(spins, neigh, j + 1, k) == spec_weighted_prefix(spins, neigh, j, k)
            + if 0 <= neigh[j] < k {
            spins[neigh[j] as int] as int
        } else {
            0int
        },
    decreases k,
{
    if k > 0 {
        lemma_weighted_prefix_step(spins, neigh, j, k - 1);
        let x = (k - 1) as usize;
        let o = spec_occ(neigh, x, j);
        let s = spins[k - 1];
        if neigh[j] == x {
            assert(spec_occ(neigh, x, j + 1) == o + 1);
            assert((o + 1) * s == o * s + s) by (nonlinear_arith);
        } else {
            assert(spec_occ(neigh, x, j + 1) == o);
        }
    }
}

/// A neighbor-spin sum is the same thing summed site by site: each site's
/// spin weighted by how often the list mentions it.
proof fn lemma_nsum_as_weighted(spins: Seq<i8>, neigh: Seq<usize>, j: int, limit: int)
    requires
        0 <= j <= neigh.len(),
        limit <= usize::MAX,
        forall|t: int| 0 <= t < neigh.len() ==> (#[trigger] neigh[t]) < limit,
    ensures
        spec_nsum(spins, neigh, j) == spec_weighted_prefix(spins, neigh, j, limit),
    decreases j,
{
    if j == 0 {
        lemma_weighted_prefix_zero(spins, neigh, limit);
    } else {
        lemma_nsum_as_weighted(spins, neigh, j - 1, limit);
        lemma_weighted_prefix_step(spins, neigh, j - 1, limit);
    }
}

/// Sum over the first `k` sites of the site's spin weighted by how often
/// that site lists `x` as a neighbor.
spec fn spec_incoming(spins: Seq<i8>, adj: Seq<Vec<usize>>, x: usize, k: int) -> int
    decreases k,
{
    if k <= 0 {
        0
    } else {
        spec_incoming(spins, adj, x, k - 1) + spins[k - 1] * spec_occ(adj[k - 1]@, x, adj[k
            - 1]@.len() as int)
    }
}

/// Under multiset symmetry of the adjacency, the spins-weighted count of
/// links into `x` equals the count of links out of `x`.
proof fn lemma_incoming_as_weighted(spins: Seq<i8>, adj: Seq<Vec<usize>>, x: usize, k: int)
    requires
        spec_count_symmetric(adj),
        x < adj.len(),
        adj.len() <= usize::MAX,
        0 <= k <= adj.len(),
    ensures
        spec_incoming(spins, adj, x, k) == spec_weighted_prefix(spins, adj[x as int]@, adj[
        x as int]@.len() as int, k),
    decreases k,
{
    if k > 0 {
        lemma_incoming_as_weighted(spins, adj, x, k - 1);
        let a = (k - 1) as usize;
        assert(spec_occ(adj[a as int]@, x, adj[a as int]@.len() as int) == spec_occ(
            adj[x as int]@, a, adj[x as int]@.len() as int));
        let o = spec_occ(adj[x as int]@, a, adj[x as int]@.len() as int);
        let s = spins[k - 1];
        assert(s * o == o * s) by (nonlinear_arith);
    }
}

/// Replacing one spin shifts a neighbor-spin sum by the difference, once
/// for each time the list mentions the replaced site.
proof fn lemma_nsum_update(spins: Seq<i8>, i: usize, v: i8, neigh: Seq<usize>, j: int)
    requires
        (i as int) < spins.len(),
        0 <= j <= neigh.len(),
        forall|t: int| 0 <= t < neigh.len() ==> (#[trigger] neigh[t]) < spins.len(),
    ensures
        spec_nsum(spins.update(i as int, v), neigh, j) == spec_nsum(spins, neigh, j) + (v
            - spins[i as int]) * spec_occ(neigh, i, j),
    decreases j,
{
    let d = v - spins[i as int];
    if j > 0 {
        lemma_nsum_update(spins, i, v, neigh, j - 1);
        let o = spec_occ(neigh, i, j - 1);
        if neigh[j - 1] == i {
            assert(spins.update(i as int, v)[neigh[j - 1] as int] == v);
            assert(d * (o + 1) == d * o + d) by (nonlinear_arith);
        } else {
            assert(spins.update(i as int, v)[neigh[j - 1] as int] == spins[neigh[j - 1] as int]);
        }
    } else {
        assert(d * 0 == 0) by (nonlinear_arith);
    }
}

/// Flipping the spin at site `i` moves the bond sum by the difference
/// applied once through site `i`'s own term and once through every link
/// back into `i`.
proof fn lemma_flip_bond_delta(spins: Seq<i8>, adj: Seq<Vec<usize>>, i: usize, v: i8, k: int)
    requires
        adj.len() == spins.len(),
        spins.len() <= usize::MAX,
        (i as int) < spins.len(),
        forall|a: int, t: int|
            0 <= a < adj.len() && 0 <= t < adj[a]@.len() ==> (#[trigger] adj[a]@[t])
                < spins.len(),
        spec_count_symmetric(adj),
        0 <= k <= adj.len(),
    ensures
        spec_bond_sum(spins.update(i as int, v), adj, k) == spec_bond_sum(spins, adj, k) + (v
            - spins[i as int]) * ((if (i as int) < k {
            spec_site_nsum(spins, adj, i as int)
        } else {
            0int
        }) + spec_incoming(spins, adj, i, k)),
    decreases k,
{
    let spins2 = spins.update(i as int, v);
    let d = v - spins[i as int];
    if k > 0 {
        lemma_flip_bond_delta(spins, adj, i, v, k - 1);
        let a = k - 1;
        assert forall|t: int| 0 <= t < adj[a]@.len() implies (#[trigger] adj[a]@[t])
            < spins.len() by {}
        lemma_nsum_update(spins, i, v, adj[a]@, adj[a]@.len() as int);
        let occ_a = spec_occ(adj[a]@, i, adj[a]@.len() as int);
        let ns_a = spec_nsum(spins, adj[a]@, adj[a]@.len() as int);
        assert(spec_site_nsum(spins2, adj, a) == ns_a + d * occ_a);
        if a == i as int {
            // a site never lists itself, so its own neighbor sum is
            // untouched by its flip; the site term changes by the spin
            // difference alone
            assert(occ_a == 0);
            assert(d * 0 == 0) by (nonlinear_arith);
            assert(spins2[a] == v);
            assert(v * ns_a - spins[a] * ns_a == d * ns_a) by (nonlinear_arith)
                requires d == v - spins[a];
            assert(spins[a] * occ_a == 0) by (nonlinear_arith)
                requires occ_a == 0;
            assert(d * ((if (i as int) < k {
                ns_a
            } else {
                0int
            }) + spec_incoming(spins, adj, i, k)) == d * ((if (i as int) < k - 1 {
                ns_a
            } else {
                0int
            }) + spec_incoming(spins, adj, i, k - 1)) + d * ns_a) by (nonlinear_arith)
                requires
                    spec_incoming(spins, adj, i, k) == spec_incoming(spins, adj, i, k - 1)
                        + spins[a] * occ_a,
                    spins[a] * occ_a == 0,
                    (i as int) == k - 1;
        } else {
            assert(spins2[a] == spins[a]);
            let s_a = spins[a];
            assert(s_a * (ns_a + d * occ_a) - s_a * ns_a == d * (s_a * occ_a))
                by (nonlinear_arith);
            assert(d * ((if (i as int) < k {
                spec_site_nsum(spins, adj, i as int)
            } else {
                0int
            }) + spec_incoming(spins, adj, i, k)) == d * ((if (i as int) < k - 1 {
                spec_site_nsum(spins, adj, i as int)
            } else {
                0int
            }) + spec_incoming(spins, adj, i, k - 1)) + d * (s_a * occ_a)) by (nonlinear_arith)
                requires
                    spec_incoming(spins, adj, i, k) == spec_incoming(spins, adj, i, k - 1) + s_a
                        * occ_a,
                    (i as int) != k - 1,
                    (i as int) < k <==> (i as int) < k - 1;
        }
    } else {
        assert(d * 0 == 0) by (nonlinear_arith);
    }
}

/// Halving an even value truncates nothing.
proof fn lemma_div_tz_double(y: int)
    ensures
        spec_div_tz(2 * y, 2) == y,
{
    if y >= 0 {
        assert(2 * y == y * 2) by (nonlinear_arith);
        vstd::arithmetic::div_mod::lemma_div_by_multiple(y, 2);
    } else {
        assert(-(2 * y) == (-y) * 2) by (nonlinear_arith);
        vstd::arithmetic::div_mod::lemma_div_by_multiple(-y, 2);
    }
}

/// The numeric invariant of the energy bookkeeping: for an engine whose
/// tracked Hamiltonian matches the lattice, with a multiset-symmetric
/// adjacency and a coupling that is a whole number of half-units, a full
/// recomputation after one spin flip lands exactly the predicted
/// single-flip differences away from the tracked components. The runtime
/// check `assert_correctness` therefore passes on every accepted flip.
pub proof fn lemma_energy_bookkeeping_exact(sim: Simulation, i: usize, flipped: Seq<i8>)
    requires
        sim.wf(),
        sim.energy_ok(),
        sim.counts_ok(),
        spec_count_symmetric(sim.network.lattice.xs@),
        sim.config.j % 2 == 0,
        (i as int) < sim.network.size * sim.network.size,
        flipped == sim.network.spins.xs@.update(
            i as int,
            (-(sim.network.spins.xs@[i as int] as int)) as i8,
        ),
    ensures
        spec_h_internal(sim.config.j as int, spec_bond_sum(flipped, sim.network.lattice.xs@, (
        sim.network.size * sim.network.size) as int)) == sim.ham_internal + spec_delta_internal(
            sim,
            i as int,
        ),
        spec_h_external(sim.config.h as int, spec_spin_sum(flipped, (sim.network.size
            * sim.network.size) as int)) == sim.ham_external + spec_delta_external(sim, i as int),
{
    lemma_sim_size_bounds(sim);
    let n = (sim.network.size * sim.network.size) as int;
    let spins = sim.network.spins.xs@;
    let adj = sim.network.lattice.xs@;
    let s = spins[i as int] as int;
    let v = (-(spins[i as int] as int)) as i8;
    let jc = sim.config.j as int;
    let h = sim.config.h as int;
    let ns = spec_site_nsum(spins, adj, i as int);
    let bond = spec_bond_sum(spins, adj, n);

    // the bond sum moves by -4 s ns
    lemma_flip_bond_delta(spins, adj, i, v, n);
    lemma_incoming_as_weighted(spins, adj, i, n);
    lemma_nsum_as_weighted(spins, adj[i as int]@, adj[i as int]@.len() as int, n);
    assert(spec_incoming(spins, adj, i, n) == ns);
    assert((v - spins[i as int]) == -2 * s);
    let bond2 = spec_bond_sum(flipped, adj, n);
    assert(bond2 == bond + (-2 * s) * (ns + ns));

    // halve exactly: the coupling is even, so both products are even
    let jh = jc / 2;
    assert(jc == 2 * jh);
    assert(-(jc * bond) == 2 * (-(jh * bond))) by (nonlinear_arith)
        requires jc == 2 * jh;
    assert(-(jc * bond2) == 2 * (-(jh * bond2))) by (nonlinear_arith)
        requires jc == 2 * jh;
    lemma_div_tz_double(-(jh * bond));
    lemma_div_tz_double(-(jh * bond2));
    assert(spec_h_internal(jc, bond) == -(jh * bond));
    assert(spec_h_internal(jc, bond2) == -(jh * bond2));
    assert(-(jh * bond2) == -(jh * bond) + 2 * jc * spins[i as int] * ns) by (nonlinear_arith)
        requires
            bond2 == bond + (-2 * (spins[i as int] as int)) * (ns + ns),
            jc == 2 * jh;

    // the spin sum moves by -2 s, so the field energy moves by 2 h s
    lemma_spin_sum_update(spins, flipped, i as int, v, n);
    let total = spec_spin_sum(spins, n);
    assert(spec_spin_sum(flipped, n) == total - 2 * s);
    assert(-(h * (total - 2 * s)) == -(h * total) + 2 * h * s) by (nonlinear_arith);
}

/// An occurrence count over a longer prefix is no smaller.
proof fn lemma_occ_monotone(s: Seq<usize>, v: usize, k1: int, k2: int)
    requires
        0 <= k1 <= k2,
    ensures
        spec_occ(s, v, k1) <= spec_occ(s, v, k2),
    decreases k2,
{
    if k2 > k1 {
        lemma_occ_monotone(s, v, k1, k2 - 1);
    }
}

/// A position holding `v` inside the prefix forces a positive count.
proof fn lemma_occ_at_position(s: Seq<usize>, v: usize, t: int, k: int)
    requires
        0 <= t < k,
        s[t] == v,
    ensures
        spec_occ(s, v, k) >= 1,
    decreases k,
{
    if t == k - 1 {
        lemma_occ_nonneg(s, v, k - 1);
    } else {
        lemma_occ_at_position(s, v, t, k - 1);
    }
}

/// A positive count over a prefix yields a witness position.
proof fn lemma_occ_witness(s: Seq<usize>, v: usize, k: int)
    requires
        0 <= k <= s.len(),
        spec_occ(s, v, k) >= 1,
    ensures
        exists|t: int| 0 <= t < k && s[t] == v,
    decreases k,
{
    if k > 0 {
        if s[k - 1] == v {
            assert(0 <= k - 1 < k && s[k - 1] == v);
        } else {
            lemma_occ_witness(s, v, k - 1);
        }
    }
}

/// The occurrence count over the whole sequence is its multiset count.
proof fn lemma_occ_is_multiset_count(s: Seq<usize>, v: usize)
    ensures
        spec_occ(s, v, s.len() as int) == s.to_multiset().count(v),
    decreases s.len(),
{
    broadcast use vstd::seq_lib::group_to_multiset_ensures;
    broadcast use vstd::multiset::group_multiset_properties;

    if s.len() == 0 {
        assert(!s.contains(v));
        assert(s.to_multiset().count(v) == 0);
    } else {
        let s2 = s.drop_last();
        lemma_occ_is_multiset_count(s2, v);
        assert(s =~= s2.push(s.last()));
        assert(s2.push(s.last()).to_multiset() =~= s2.to_multiset().insert(s.last()));
        lemma_occ_prefix(s, s2, v, s.len() - 1);
    }
}

pub open spec fn spec_abs(x: int) -> int {
    if x < 0 {
        -x
    } else {
        x
    }
}

/// Energy cost of flipping the spin at site `i`, internal part:
/// `2 J s_i (sum of neighbor spins)`.
pub open spec fn spec_delta_internal(sim: Simulation, i: int) -> int {
    2 * sim.config.j * sim.network.spins.xs@[i] * spec_site_nsum(
        sim.network.spins.xs@,
        sim.network.lattice.xs@,
        i,
    )
}

/// Energy cost of flipping the spin at site `i`, field part: `2 H s_i`.
pub open spec fn spec_delta_external(sim: Simulation, i: int) -> int {
    2 * sim.config.h * sim.network.spins.xs@[i]
}

/// Total energy cost of flipping the spin at site `i`.
pub open spec fn spec_delta_h(sim: Simulation, i: int) -> int {
    spec_delta_internal(sim, i) + spec_delta_external(sim, i)
}

/// If the configured temperature is so close to zero that `kb * temp`
/// rounds below one fixed-point unit, a flip the Metropolis rule accepted
/// under some draw can only have been downhill or level: no energy-raising
/// move passes at the cold limit.
pub proof fn lemma_cold_flip_is_downhill(dh: int, kb: int, temp: int)
    requires
        0 <= kb,
        0 <= temp,
        kb * temp < SCALE,
        exists|draw: int| 0 <= draw < SCALE && #[trigger] spec_accepts(dh, kb, temp, draw),
    ensures
        dh <= 0,
{
    if dh > 0 {
        let draw = choose|draw: int|
            0 <= draw < SCALE && #[trigger] spec_accepts(dh, kb, temp, draw);
        lemma_cold_rejects_uphill(dh, kb, temp, draw);
    }
}

#[derive(Debug)]
pub struct Simulation {
    pub network: Network,
    pub config: SimulationConfig,
    pub time: u64,
    pub n: u64,
    pub spin_sum: i64,
    pub ham_internal: i64,
    pub ham_external: i64,
    pub ham_agr_internal: i128,
    pub ham_agr_external: i128,
    pub free_count: i64,
}

/// Immutable capture of the engine's scalars taken before a sweep, used by
/// the equilibrium test.
#[derive(Debug, Clone)]
pub struct StateSnapshot {
    pub spin_sum: i64,
    pub ham_internal: i64,
    pub ham_external: i64,
    pub ham_agr_internal: i128,
    pub ham_agr_external: i128,
    pub mag: i64,
}

impl StateSnapshot {
    pub open spec fn wf(self) -> bool {
        &&& -HAM_PART_LIMIT <= self.ham_internal <= HAM_PART_LIMIT
        &&& -HAM_PART_LIMIT <= self.ham_external <= HAM_PART_LIMIT
        &&& -(SIM_MAX_SIZE * SIM_MAX_SIZE) <= self.spin_sum <= SIM_MAX_SIZE * SIM_MAX_SIZE
        &&& -SCALE <= self.mag <= SCALE
    }

    pub fn of_simulation(simulation: &Simulation) -> (r: StateSnapshot)
        requires
            simulation.wf(),
        ensures
            r.spin_sum == simulation.spin_sum,
            r.ham_internal == simulation.ham_internal,
            r.ham_external == simulation.ham_external,
            r.ham_agr_internal == simulation.ham_agr_internal,
            r.ham_agr_external == simulation.ham_agr_external,
            r.mag == simulation.spec_mag(),
            r.wf(),
    {
        proof {
            lemma_sim_size_bounds(*simulation);
        }
        StateSnapshot {
            spin_sum: simulation.spin_sum,
            ham_internal: simulation.ham_internal,
            ham_external: simulation.ham_external,
            ham_agr_internal: simulation.ham_agr_internal,
            ham_agr_external: simulation.ham_agr_external,
            mag: simulation.mag(),
        }
    }

    /// Total Hamiltonian captured by the snapshot.
    pub fn ham(&self) -> (r: i64)
        requires
            self.wf(),
        ensures
            r == self.ham_internal + self.ham_external,
    {
        self.ham_internal + self.ham_external
    }
}

impl Simulation {
    /// Well-formedness of the engine state: a well-formed lattice of bounded
    /// side, configured scalars in range, a spin-sum field within `[-N^2,
    /// N^2]`, Hamiltonian fields and aggregates within their fixed bounds,
    /// and a correct free-site count.
    pub open spec fn wf(self) -> bool {
        &&& self.network.wf()
        &&& self.network.size <= SIM_MAX_SIZE
        &&& self.config.ok()
        &&& -(self.network.size * self.network.size) <= self.spin_sum <= self.network.size
            * self.network.size
        &&& -HAM_PART_LIMIT <= self.ham_internal <= HAM_PART_LIMIT
        &&& -HAM_PART_LIMIT <= self.ham_external <= HAM_PART_LIMIT
        &&& -AGR_LIMIT <= self.ham_agr_internal <= AGR_LIMIT
        &&& -AGR_LIMIT <= self.ham_agr_external <= AGR_LIMIT
        &&& 0 <= self.free_count <= self.network.size * self.network.size
        &&& self.free_count == spec_free_count(self.network.lattice.xs@, (self.network.size
            * self.network.size) as int)
    }

    /// The spin-sum field equals the actual sum over the lattice.
    pub open spec fn counts_ok(self) -> bool {
        self.spin_sum == spec_spin_sum(self.network.spins.xs@, (self.network.size
            * self.network.size) as int)
    }

    /// The Hamiltonian fields equal a full recomputation from the lattice.
    pub open spec fn energy_ok(self) -> bool {
        &&& self.ham_internal == spec_h_internal(self.config.j as int, spec_bond_sum(
            self.network.spins.xs@,
            self.network.lattice.xs@,
            (self.network.size * self.network.size) as int,
        ))
        &&& self.ham_external == spec_h_external(self.config.h as int, spec_spin_sum(
            self.network.spins.xs@,
            (self.network.size * self.network.size) as int,
        ))
    }

    /// The two states share the same lattice structure, configuration and
    /// derived statistics; only spins and running scalars may differ.
    pub open spec fn same_topology(self, other: Simulation) -> bool {
        &&& self.network.size == other.network.size
        &&& self.network.spins.width == other.network.spins.width
        &&& self.network.spins.xs@.len() == other.network.spins.xs@.len()
        &&& self.network.lattice == other.network.lattice
        &&& self.network.deg_mse == other.network.deg_mse
        &&& self.network.deg_avg == other.network.deg_avg
        &&& self.config == other.config
        &&& self.free_count == other.free_count
    }

    /// The two states agree on everything observable: lattice structure,
    /// spins, configuration and every running scalar.
    pub open spec fn same_state(self, other: Simulation) -> bool {
        &&& self.same_topology(other)
        &&& self.network.spins.xs@ == other.network.spins.xs@
        &&& self.time == other.time
        &&& self.n == other.n
        &&& self.spin_sum == other.spin_sum
        &&& self.ham_internal == other.ham_internal
        &&& self.ham_external == other.ham_external
        &&& self.ham_agr_internal == other.ham_agr_internal
        &&& self.ham_agr_external == other.ham_agr_external
    }

    /// Magnetization: the spin-sum field over the site count, truncated, in
    /// fixed-point units.
    pub open spec fn spec_mag(self) -> int {
        spec_div_tz(self.spin_sum * SCALE, (self.network.size * self.network.size) as int)
    }

    /// Normalized magnetization of the current state, in `[-SCALE, SCALE]`.
    pub fn mag(&self) -> (r: i64)
        requires
            self.wf(),
        ensures
            r == self.spec_mag(),
            -SCALE <= r <= SCALE,
    {
        proof {
            lemma_sim_size_bounds(*self);
            lemma_mag_bounds(self.spin_sum as int, (self.network.size
                * self.network.size) as int);
        }
        let n: usize = self.network.size * self.network.size;
        let prod: i64 = self.spin_sum * SCALE;
        div_tz(prod, n as i64)
    }

    /// Total Hamiltonian: internal plus external component.
    pub fn ham(&self) -> (r: i64)
        requires
            self.wf(),
        ensures
            r == self.ham_internal + self.ham_external,
    {
        self.ham_internal + self.ham_external
    }

    /// Total aggregated (incrementally tracked) energy.
    pub fn ham_agr(&self) -> (r: i128)
        requires
            self.wf(),
        ensures
            r == self.ham_agr_internal + self.ham_agr_external,
    {
        self.ham_agr_internal + self.ham_agr_external
    }

    /// Full recomputation of the internal energy from the lattice.
    fn calc_h_internal(&self) -> (r: i64)
        requires
            self.wf(),
        ensures
            r == spec_h_internal(self.config.j as int, spec_bond_sum(self.network.spins.xs@,
                self.network.lattice.xs@, (self.network.size * self.network.size) as int)),
            -HAM_PART_LIMIT <= r <= HAM_PART_LIMIT,
    {
        proof {
            lemma_sim_size_bounds(*self);
        }
        let n: usize = self.network.size * self.network.size;
        let mut bond: i64 = 0;
        let mut i: usize = 0;
        while i < n
            invariant
                self.wf(),
                n == self.network.size * self.network.size,
                n <= 1_000_000,
                i <= n,
                bond == spec_bond_sum(self.network.spins.xs@, self.network.lattice.xs@, i as int),
                -8 * i <= bond <= 8 * i,
            decreases n - i,
        {
            let neigh = self.network.lattice.at(i);
            let mut ns: i64 = 0;
            let mut k: usize = 0;
            while k < neigh.len()
                invariant
                    self.wf(),
                    n == self.network.size * self.network.size,
                    i < n,
                    neigh == self.network.lattice.xs@[i as int],
                    neigh@.len() <= 8,
                    k <= neigh@.len(),
                    ns == spec_nsum(self.network.spins.xs@, neigh@, k as int),
                    -(k as int) <= ns <= k as int,
                decreases neigh@.len() - k,
            {
                let j = neigh[k];
                ns = ns + (*self.network.spins.at(j)) as i64;
                k = k + 1;
            }
            let s: i64 = (*self.network.spins.at(i)) as i64;
            proof {
                assert(-8 <= s * ns <= 8) by (nonlinear_arith)
                    requires (s == 1 || s == -1), -8 <= ns <= 8;
            }
            bond = bond + s * ns;
            i = i + 1;
        }
        proof {
            assert(-8_000_000 <= bond <= 8_000_000);
            assert(-8_000_000_000_000_000_000 <= (self.config.j as int) * (bond as int)
                <= 8_000_000_000_000_000_000) by (nonlinear_arith)
                requires
                    -1_000_000_000_000 <= self.config.j as int <= 1_000_000_000_000,
                    -8_000_000 <= bond as int <= 8_000_000;
        }
        let scaled: i64 = self.config.j * bond;
        div_tz(-scaled, 2)
    }

    /// Full recomputation of the external (field) energy from the lattice.
    fn calc_h_external(&self) -> (r: i64)
        requires
            self.wf(),
        ensures
            r == spec_h_external(self.config.h as int, spec_spin_sum(self.network.spins.xs@, (
            self.network.size * self.network.size) as int)),
            -HAM_PART_LIMIT <= r <= HAM_PART_LIMIT,
    {
        proof {
            lemma_sim_size_bounds(*self);
        }
        let n: usize = self.network.size * self.network.size;
        let mut acc: i64 = 0;
        let mut i: usize = 0;
        while i < n
            invariant
                self.wf(),
                n == self.network.size * self.network.size,
                n <= 1_000_000,
                i <= n,
                acc == spec_spin_sum(self.network.spins.xs@, i as int),
                -(i as int) <= acc <= i as int,
            decreases n - i,
        {
            acc = acc + (*self.network.spins.at(i)) as i64;
            i = i + 1;
        }
        proof {
            assert(-4_000_000_000_000_000_000 <= (self.config.h as int) * (acc as int)
                <= 4_000_000_000_000_000_000) by (nonlinear_arith)
                requires
                    -4_000_000_000_000 <= self.config.h as int <= 4_000_000_000_000,
                    -1_000_000 <= acc as int <= 1_000_000;
        }
        let scaled: i64 = self.config.h * acc;
        -scaled
    }

    /// Recompute the spin-sum field from the lattice and return the
    /// magnetization.
    pub fn calc_magnetisation(&mut self) -> (r: i64)
        requires
            old(self).wf(),
        ensures
            final(self).wf(),
            final(self).counts_ok(),
            *final(self) == (Simulation { spin_sum: final(self).spin_sum, ..*old(self) }),
            r == final(self).spec_mag(),
            -SCALE <= r <= SCALE,
    {
        proof {
            lemma_sim_size_bounds(*self);
        }
        let n: usize = self.network.size * self.network.size;
        let mut acc: i64 = 0;
        let mut i: usize = 0;
        while i < n
            invariant
                self.wf(),
                n == self.network.size * self.network.size,
                n <= 1_000_000,
                i <= n,
                acc == spec_spin_sum(self.network.spins.xs@, i as int),
                -(i as int) <= acc <= i as int,
            decreases n - i,
        {
            acc = acc + (*self.network.spins.at(i)) as i64;
            i = i + 1;
        }
        self.spin_sum = acc;
        self.mag()
    }

    /// Internal-energy cost of hypothetically flipping the spin at `p`.
    fn calc_delta_h_internal(&self, p: (usize, usize)) -> (r: i64)
        requires
            self.wf(),
            p.0 < self.network.size,
            p.1 < self.network.size,
        ensures
            r == spec_delta_internal(*self, spec_index_of_pos(self.network.size, p)),
            -16_000_000_000_000 <= r <= 16_000_000_000_000,
    {
        proof {
            lemma_sim_size_bounds(*self);
            lemma_pos_in_bounds(self.network.size, self.network.size, p.0, p.1);
        }
        let neighbours = self.network.get_neighbours(p);
        let mut ns: i64 = 0;
        let mut k: usize = 0;
        let ghost idx = spec_index_of_pos(self.network.size, p);
        while k < neighbours.len()
            invariant
                self.wf(),
                0 <= idx < self.network.size * self.network.size,
                neighbours@.len() == self.network.lattice.xs@[idx]@.len() <= 8,
                forall|t: int|
                    0 <= t < neighbours@.len() ==> (#[trigger] neighbours@[t])
                        == self.network.spins.xs@[self.network.lattice.xs@[idx]@[t] as int],
                k <= neighbours@.len(),
                ns == spec_nsum(self.network.spins.xs@, self.network.lattice.xs@[idx]@, k as int),
                -(k as int) <= ns <= k as int,
            decreases neighbours@.len() - k,
        {
            ns = ns + neighbours[k] as i64;
            k = k + 1;
        }
        let sk: i64 = self.network.get_spin(p) as i64;
        let tj: i64 = 2 * self.config.j;
        let tjs: i64 = tj * sk;
        proof {
            assert(tjs == 2 * (self.config.j as int) * (sk as int) && -2_000_000_000_000 <= tjs
                <= 2_000_000_000_000) by (nonlinear_arith)
                requires
                    tjs == tj as int * sk as int,
                    tj as int == 2 * self.config.j as int,
                    -2_000_000_000_000 <= tj as int <= 2_000_000_000_000,
                    (sk as int == 1 || sk as int == -1);
            assert(-16_000_000_000_000 <= tjs as int * ns as int <= 16_000_000_000_000)
                by (nonlinear_arith)
                requires
                    -2_000_000_000_000 <= tjs as int <= 2_000_000_000_000,
                    -8 <= ns as int <= 8;
        }
        tjs * ns
    }

    /// Field-energy cost of hypothetically flipping the spin at `p`,
    /// computed by flipping, recomputing and differencing, then restoring.
    fn calc_delta_h_external(&mut self, p: (usize, usize)) -> (r: i64)
        requires
            old(self).wf(),
            old(self).energy_ok(),
            p.0 < old(self).network.size,
            p.1 < old(self).network.size,
        ensures
            final(self).same_state(*old(self)),
            final(self).wf(),
            r == spec_delta_external(*old(self), spec_index_of_pos(old(self).network.size, p)),
            -8_000_000_000_000 <= r <= 8_000_000_000_000,
    {
        proof {
            lemma_sim_size_bounds(*self);
            lemma_pos_in_bounds(self.network.size, self.network.size, p.0, p.1);
        }
        let ghost idx = spec_index_of_pos(self.network.size, p);
        let ghost n = (self.network.size * self.network.size) as int;
        let ghost spins0 = self.network.spins.xs@;
        let prev_external: i64 = self.ham_external;
        let s1 = self.network.flip_spin(p);
        proof {
            lemma_spin_sum_update(spins0, self.network.spins.xs@, idx, s1, n);
        }
        let e2 = self.calc_h_external();
        let s2 = self.network.flip_spin(p);
        proof {
            assert(self.network.spins.xs@ =~= spins0);
            lemma_spin_sum_bounds(spins0, n);
            let h = self.config.h as int;
            let total = spec_spin_sum(spins0, n);
            let sk = spins0[idx] as int;
            assert(e2 == -(h * (total - 2 * sk)));
            assert(-(h * (total - 2 * sk)) - (-(h * total)) == 2 * h * sk) by (nonlinear_arith);
            assert(-8_000_000_000_000 <= 2 * h * sk <= 8_000_000_000_000) by (nonlinear_arith)
                requires
                    -4_000_000_000_000 <= h <= 4_000_000_000_000,
                    (sk == 1 || sk == -1);
        }
        e2 - prev_external
    }

    /// Total energy cost of hypothetically flipping the spin at `p`.
    pub fn calc_delta_h(&mut self, p: (usize, usize)) -> (r: i64)
        requires
            old(self).wf(),
            old(self).energy_ok(),
            p.0 < old(self).network.size,
            p.1 < old(self).network.size,
        ensures
            final(self).same_state(*old(self)),
            final(self).wf(),
            r == spec_delta_h(*old(self), spec_index_of_pos(old(self).network.size, p)),
            -DELTA_H_LIMIT <= r <= DELTA_H_LIMIT,
    {
        let d_int = self.calc_delta_h_internal(p);
        let d_ext = self.calc_delta_h_external(p);
        d_int + d_ext
    }

    /// One Metropolis update attempt at site `p`: compute the flip cost,
    /// accept downhill moves outright and uphill moves with the thermal
    /// probability, and on acceptance flip the spin and recompute every
    /// tracked scalar from scratch.
    fn evolve_spin(&mut self, p: (usize, usize), rand: &mut rand_chacha::ChaCha20Rng)
        requires
            old(self).wf(),
            old(self).counts_ok(),
            old(self).energy_ok(),
            p.0 < old(self).network.size,
            p.1 < old(self).network.size,
            -AGR_EVOLVE_LIMIT <= old(self).ham_agr_internal <= AGR_EVOLVE_LIMIT,
            -AGR_EVOLVE_LIMIT <= old(self).ham_agr_external <= AGR_EVOLVE_LIMIT,
        ensures
            final(self).wf(),
            final(self).counts_ok(),
            final(self).energy_ok(),
            final(self).same_topology(*old(self)),
            final(self).time == old(self).time,
            final(self).n == old(self).n,
            old(self).ham_agr_internal - DELTA_H_LIMIT <= final(self).ham_agr_internal <= old(
                self,
            ).ham_agr_internal + DELTA_H_LIMIT,
            old(self).ham_agr_external - DELTA_H_LIMIT <= final(self).ham_agr_external <= old(
                self,
            ).ham_agr_external + DELTA_H_LIMIT,
            final(self).same_state(*old(self)) || {
                let idx = spec_index_of_pos(old(self).network.size, p);
                &&& (exists|draw: int|
                    0 <= draw < SCALE && #[trigger] spec_accepts(
                        spec_delta_h(*old(self), idx),
                        old(self).config.kb as int,
                        old(self).config.temp as int,
                        draw,
                    ))
                &&& final(self).network.spins.xs@ == old(self).network.spins.xs@.update(
                    idx,
                    (-(old(self).network.spins.xs@[idx] as int)) as i8,
                )
                &&& final(self).ham_agr_internal == old(self).ham_agr_internal
                    + spec_delta_internal(*old(self), idx)
                &&& final(self).ham_agr_external == old(self).ham_agr_external
                    + spec_delta_external(*old(self), idx)
            },
            spec_delta_h(*old(self), spec_index_of_pos(old(self).network.size, p)) <= 0
                ==> final(self).network.spins.xs@ == old(self).network.spins.xs@.update(
                spec_index_of_pos(old(self).network.size, p),
                (-(old(self).network.spins.xs@[spec_index_of_pos(old(self).network.size, p)]
                    as int)) as i8,
            ),
            (spec_count_symmetric(old(self).network.lattice.xs@) && old(self).config.j % 2 == 0
                && old(self).config.kb * old(self).config.temp < SCALE)
                ==> final(self).ham_internal + final(self).ham_external
                <= old(self).ham_internal + old(self).ham_external,
    {
        proof {
            lemma_sim_size_bounds(*self);
            lemma_pos_in_bounds(self.network.size, self.network.size, p.0, p.1);
        }
        let ghost idx = spec_index_of_pos(self.network.size, p);
        let ghost n = (self.network.size * self.network.size) as int;
        let ghost spins0 = self.network.spins.xs@;
        let d_int = self.calc_delta_h_internal(p);
        let d_ext = self.calc_delta_h_external(p);
        let d_ham = self.calc_delta_h(p);
        let dr: u64 = rng::next_u64(rand);
        let draw: i64 = (dr % (SCALE as u64)) as i64;
        let accept = metropolis_accepts(d_ham, self.config.kb, self.config.temp, draw);
        if accept {
            proof {
                assert(0 <= draw < SCALE);
                assert(spec_accepts(spec_delta_h(*old(self), idx), old(self).config.kb as int,
                    old(self).config.temp as int, draw as int));
            }
            let r = self.network.flip_spin(p);
            proof {
                lemma_spin_sum_update(spins0, self.network.spins.xs@, idx, r, n);
                lemma_spin_sum_bounds(self.network.spins.xs@, n);
                assert(((-(spins0[idx] as int)) as i8) == r);
                assert(self.network.spins.xs@ == spins0.update(idx, r));
            }
            self.spin_sum = self.spin_sum + 2 * (r as i64);
            self.ham_agr_internal = self.ham_agr_internal + (d_int as i128);
            self.ham_agr_external = self.ham_agr_external + (d_ext as i128);
            self.ham_internal = self.calc_h_internal();
            self.ham_external = self.calc_h_external();
            proof {
                let kb = old(self).config.kb as int;
                let temp = old(self).config.temp as int;
                if spec_count_symmetric(old(self).network.lattice.xs@) && old(self).config.j % 2
                    == 0 && kb * temp < SCALE {
                    if d_ham > 0 {
                        lemma_cold_rejects_uphill(d_ham as int, kb, temp, draw as int);
                    }
                    lemma_energy_bookkeeping_exact(*old(self), idx as usize,
                        self.network.spins.xs@);
                    assert(self.ham_internal + self.ham_external
                        == old(self).ham_internal + old(self).ham_external + d_ham);
                }
            }
        }
    }

    /// One full-lattice sweep: visit every site exactly once in a uniformly
    /// shuffled order, attempting one Metropolis update at each. At the cold
    /// limit (`kb * temp` under one fixed-point unit) every accepted flip is
    /// downhill or level, so a sweep never raises the tracked energy; and
    /// with no external field, a free (degree-0) site costs nothing to flip,
    /// so every sweep flips it, whatever the draws.
    pub fn mc_iter(&mut self, rand: &mut rand_chacha::ChaCha20Rng)
        requires
            old(self).wf(),
            old(self).counts_ok(),
            old(self).energy_ok(),
            -AGR_SWEEP_LIMIT <= old(self).ham_agr_internal <= AGR_SWEEP_LIMIT,
            -AGR_SWEEP_LIMIT <= old(self).ham_agr_external <= AGR_SWEEP_LIMIT,
        ensures
            final(self).wf(),
            final(self).counts_ok(),
            final(self).energy_ok(),
            final(self).same_topology(*old(self)),
            final(self).time == old(self).time,
            final(self).n == old(self).n,
            old(self).ham_agr_internal - AGR_SWEEP_GROWTH <= final(self).ham_agr_internal <= old(
                self,
            ).ham_agr_internal + AGR_SWEEP_GROWTH,
            old(self).ham_agr_external - AGR_SWEEP_GROWTH <= final(self).ham_agr_external <= old(
                self,
            ).ham_agr_external + AGR_SWEEP_GROWTH,
            (spec_count_symmetric(old(self).network.lattice.xs@) && old(self).config.j % 2 == 0
                && old(self).config.kb * old(self).config.temp < SCALE)
                ==> final(self).ham_internal + final(self).ham_external
                <= old(self).ham_internal + old(self).ham_external,
            old(self).config.h == 0 ==> forall|f: usize|
                f < old(self).network.size * old(self).network.size
                    && (#[trigger] old(self).network.lattice.xs@[f as int])@.len() == 0
                    ==> final(self).network.spins.xs@[f as int]
                    == ((-(old(self).network.spins.xs@[f as int] as int)) as i8),
    {
        proof {
            lemma_sim_size_bounds(*self);
        }
        let n: usize = self.network.size * self.network.size;
        let mut indices: Vec<usize> = Vec::new();
        let mut i: usize = 0;
        while i < n
            invariant
                i <= n,
                indices@.len() == i,
                forall|k: int| 0 <= k < i ==> (#[trigger] indices@[k]) < n,
                forall|v: usize|
                    v < n ==> #[trigger] spec_occ(indices@, v, i as int) == (if (v as int) < i {
                        1int
                    } else {
                        0int
                    }),
            decreases n - i,
        {
            let ghost pre = indices@;
            indices.push(i);
            proof {
                assert forall|v: usize|
                    v < n implies #[trigger] spec_occ(indices@, v, (i + 1) as int) == (if (
                v as int) < i + 1 {
                    1int
                } else {
                    0int
                }) by {
                    lemma_occ_push(pre, i, v);
                }
            }
            i = i + 1;
        }
        let ghost before_shuffle = indices@;
        rng::shuffle_sites(&mut indices, rand);
        proof {
            broadcast use vstd::seq_lib::group_to_multiset_ensures;

            assert(indices@.to_multiset() == before_shuffle.to_multiset());
            assert(indices@.len() == indices@.to_multiset().len());
            assert(before_shuffle.len() == before_shuffle.to_multiset().len());
            assert(indices@.len() == before_shuffle.len());
            assert forall|k: int| 0 <= k < indices@.len() implies (#[trigger] indices@[k])
                < n by {
                let v = indices@[k];
                assert(indices@.contains(v));
                assert(indices@.to_multiset().count(v) > 0);
                assert(before_shuffle.to_multiset().count(v) > 0);
                assert(before_shuffle.contains(v));
                let t = choose|t: int|
                    0 <= t < before_shuffle.len() && before_shuffle[t] == v;
                assert(before_shuffle[t] < n);
            }
            assert forall|v: usize|
                v < n implies #[trigger] spec_occ(indices@, v, indices@.len() as int) == 1 by {
                lemma_occ_is_multiset_count(indices@, v);
                lemma_occ_is_multiset_count(before_shuffle, v);
            }
        }
        let ghost agr_i0 = self.ham_agr_internal;
        let ghost agr_e0 = self.ham_agr_external;
        let ghost start = *self;
        let mut k: usize = 0;
        while k < indices.len()
            invariant
                self.wf(),
                self.counts_ok(),
                self.energy_ok(),
                self.same_topology(start),
                self.time == start.time,
                self.n == start.n,
                n == self.network.size * self.network.size,
                n <= 1_000_000,
                indices@.len() == n,
                indices@.len() <= 1_000_000,
                k <= indices@.len(),
                forall|t: int| 0 <= t < indices@.len() ==> (#[trigger] indices@[t]) < n,
                forall|v: usize|
                    v < n ==> #[trigger] spec_occ(indices@, v, indices@.len() as int) == 1,
                start.config.h == 0 ==> forall|f: usize|
                    f < n && (#[trigger] start.network.lattice.xs@[f as int])@.len() == 0 ==> (if
                    indices@.take(k as int).contains(f) {
                        self.network.spins.xs@[f as int] == ((-(start.network.spins.xs@[f as int]
                            as int)) as i8)
                    } else {
                        self.network.spins.xs@[f as int] == start.network.spins.xs@[f as int]
                    }),
                agr_i0 - k * DELTA_H_LIMIT <= self.ham_agr_internal <= agr_i0 + k
                    * DELTA_H_LIMIT,
                agr_e0 - k * DELTA_H_LIMIT <= self.ham_agr_external <= agr_e0 + k
                    * DELTA_H_LIMIT,
                -AGR_SWEEP_LIMIT <= agr_i0 <= AGR_SWEEP_LIMIT,
                -AGR_SWEEP_LIMIT <= agr_e0 <= AGR_SWEEP_LIMIT,
                (spec_count_symmetric(start.network.lattice.xs@) && start.config.j % 2 == 0
                    && start.config.kb * start.config.temp < SCALE)
                    ==> self.ham_internal + self.ham_external
                    <= start.ham_internal + start.ham_external,
            decreases indices@.len() - k,
        {
            let site = indices[k];
            let p = pos_of_index(self.network.size, site);
            proof {
                vstd::arithmetic::div_mod::lemma_multiply_divide_lt(site as int,
                    self.network.size as int, self.network.size as int);
            }
            let ghost pre = *self;
            self.evolve_spin(p, rand);
            proof {
                assert(spec_index_of_pos(pre.network.size, p) == site);
                assert(indices@.take(k + 1) =~= indices@.take(k as int).push(site));
                if start.config.h == 0 {
                    assert forall|f: usize|
                        f < n && (#[trigger] start.network.lattice.xs@[f as int])@.len()
                            == 0 implies (if indices@.take(k + 1).contains(f) {
                        self.network.spins.xs@[f as int] == ((-(start.network.spins.xs@[f as int]
                            as int)) as i8)
                    } else {
                        self.network.spins.xs@[f as int] == start.network.spins.xs@[f as int]
                    }) by {
                        lemma_push_contains(indices@.take(k as int), site, f);
                        if f == site {
                            // each site appears exactly once in the shuffled
                            // order, so this site had not been visited yet
                            if indices@.take(k as int).contains(site) {
                                let t = choose|t: int|
                                    0 <= t < k && indices@.take(k as int)[t] == site;
                                lemma_occ_at_position(indices@, site, t, k as int);
                                lemma_occ_monotone(indices@, site, k + 1,
                                    indices@.len() as int);
                                assert(false);
                            }
                            // a free site under no field costs nothing to
                            // flip, so the update is forced
                            assert(spec_site_nsum(pre.network.spins.xs@,
                                pre.network.lattice.xs@, site as int) == 0);
                            assert(spec_delta_h(pre, site as int) <= 0);
                        }
                    }
                }
            }
            k = k + 1;
        }
        proof {
            if start.config.h == 0 {
                assert(indices@.take(indices@.len() as int) =~= indices@);
                assert forall|f: usize|
                    f < n && (#[trigger] start.network.lattice.xs@[f as int])@.len()
                        == 0 implies indices@.contains(f) by {
                    lemma_occ_witness(indices@, f, indices@.len() as int);
                }
            }
        }
    }

    /// The energy-bookkeeping check: whether the change of each tracked
    /// Hamiltonian component since the snapshot equals the claimed
    /// single-flip difference. A mismatch after an accepted flip indicates
    /// an energy-bookkeeping fault.
    pub fn assert_correctness(
        &self,
        prev: &StateSnapshot,
        d_int: i64,
        d_ext: i64,
        d_ham: i64,
    ) -> (r: bool)
        requires
            self.wf(),
            prev.wf(),
        ensures
            r == {
                &&& self.ham_internal - prev.ham_internal == d_int
                &&& self.ham_external - prev.ham_external == d_ext
                &&& (self.ham_internal + self.ham_external) - (prev.ham_internal
                    + prev.ham_external) == d_ham
            },
    {
        let di: i128 = (self.ham_internal as i128) - (prev.ham_internal as i128);
        let de: i128 = (self.ham_external as i128) - (prev.ham_external as i128);
        let dh: i128 = ((self.ham_internal as i128) + (self.ham_external as i128)) - ((
        prev.ham_internal as i128) + (prev.ham_external as i128));
        di == d_int as i128 && de == d_ext as i128 && dh == d_ham as i128
    }

    /// The equilibrium criterion: energy has stopped changing within the
    /// configured tolerance, and either only the free (degree-0) sites are
    /// still flipping or the magnetization has stopped changing too. In
    /// exact fixed-point arithmetic a tolerance of zero is the
    /// machine-epsilon reading: the scalars must have stopped changing
    /// outright.
    pub fn is_at_equilibrium(&self, prev_state: &StateSnapshot) -> (r: bool)
        requires
            self.wf(),
            prev_state.wf(),
        ensures
            r == spec_at_equilibrium(*prev_state, *self),
    {
        proof {
            lemma_sim_size_bounds(*self);
        }
        let dc: i64 = prev_state.spin_sum - self.spin_sum;
        let d_count: i64 = if dc < 0 {
            -dc
        } else {
            dc
        };
        let ph: i128 = (prev_state.ham_internal as i128) + (prev_state.ham_external as i128);
        let sh: i128 = (self.ham_internal as i128) + (self.ham_external as i128);
        let dh: i128 = ph - sh;
        let d_ham: i128 = if dh < 0 {
            -dh
        } else {
            dh
        };
        let m = self.mag();
        let dm: i64 = prev_state.mag - m;
        let d_mag: i64 = if dm < 0 {
            -dm
        } else {
            dm
        };
        let ham_relax = d_ham <= self.config.eq_threshold as i128;
        let mag_relax = d_count == 2 * self.free_count || d_mag <= self.config.eq_threshold;
        mag_relax && ham_relax
    }

    /// Data point for a hysteresis sweep: the current field with the
    /// equilibrated magnetization and energies.
    pub fn snapshot_hysteresis(&self) -> (r: SweepRecord)
        requires
            self.wf(),
        ensures
            r.time == self.time,
            r.n == self.n,
            r.param == self.config.h,
            r.forced == false,
            r.mag == self.spec_mag(),
            r.energy == self.ham_internal + self.ham_external,
            r.energy_agr == self.ham_agr_internal + self.ham_agr_external,
    {
        SweepRecord {
            time: self.time,
            n: self.n,
            param: self.config.h,
            mag: self.mag(),
            energy: self.ham(),
            energy_agr: self.ham_agr(),
            forced: false,
        }
    }

    /// Data point for a phase sweep: the current temperature with the
    /// equilibrated magnetization and energies.
    pub fn snapshot_phase(&self) -> (r: SweepRecord)
        requires
            self.wf(),
        ensures
            r.time == self.time,
            r.n == self.n,
            r.param == self.config.temp,
            r.forced == false,
            r.mag == self.spec_mag(),
            r.energy == self.ham_internal + self.ham_external,
            r.energy_agr == self.ham_agr_internal + self.ham_agr_external,
    {
        SweepRecord {
            time: self.time,
            n: self.n,
            param: self.config.temp,
            mag: self.mag(),
            energy: self.ham(),
            energy_agr: self.ham_agr(),
            forced: false,
        }
    }

    /// Build a fresh engine: construct the topology and spin assignment from
    /// the seeded source, count the free sites, and zero the running scalars.
    pub fn new(size: usize, config: SimulationConfig, rand: &mut rand_chacha::ChaCha20Rng) -> (r:
        Simulation)
        requires
            0 < size <= SIM_MAX_SIZE,
            config.ok(),
        ensures
            r.wf(),
            r.config == config,
            r.network.size == size,
            r.time == 0,
            r.n == 0,
            r.spin_sum == 0,
            r.ham_internal == 0,
            r.ham_external == 0,
            r.ham_agr_internal == 0,
            r.ham_agr_external == 0,
            config.network_type == NetworkType::Regular ==> {
                &&& forall|i: int|
                    0 <= i < size * size ==> (#[trigger] r.network.lattice.xs@[i])@
                        == crate::network::spec_regular_adj_at(size, i as usize)
                &&& r.network.deg_mse == 0
                &&& r.network.deg_avg == 4 * SCALE
            },
            config.network_type == NetworkType::Regular && size >= 2 ==> spec_count_symmetric(
                r.network.lattice.xs@,
            ),
            config.network_type == NetworkType::Irregular
                ==> crate::network::spec_symmetric(r.network.lattice.xs@)
                && spec_count_symmetric(r.network.lattice.xs@)
                && crate::network::spec_no_duplicate_links(r.network.lattice.xs@),
    {
        let network = Network::new(size, &config.network_type, rand);
        proof {
            assert(0 < (size as int) * (size as int) <= 1_000_000) by (nonlinear_arith)
                requires 0 < size as int <= 1000;
        }
        let n: usize = size * size;
        let mut free: i64 = 0;
        let mut i: usize = 0;
        while i < n
            invariant
                network.wf(),
                network.size == size,
                n == size * size,
                n <= 1_000_000,
                i <= n,
                free == spec_free_count(network.lattice.xs@, i as int),
                0 <= free <= i,
            decreases n - i,
        {
            if network.lattice.at(i).len() == 0 {
                free = free + 1;
            }
            i = i + 1;
        }
        Simulation {
            network,
            config,
            time: 0,
            n: 0,
            spin_sum: 0,
            ham_internal: 0,
            ham_external: 0,
            ham_agr_internal: 0,
            ham_agr_external: 0,
            free_count: free,
        }
    }

    /// Sweep repeatedly until the equilibrium test passes or the configured
    /// iteration cap fires; returns whether the cap forced the exit. Resets
    /// the per-equilibration sweep counter, and advances total time only
    /// when asked (the initial relaxation pass is untimed).
    fn equilibrate(&mut self, advance_time: bool, rand: &mut rand_chacha::ChaCha20Rng) -> (forced:
        bool)
        requires
            old(self).wf(),
            old(self).counts_ok(),
            old(self).energy_ok(),
            -(HAM_PART_LIMIT as int) <= old(self).ham_agr_internal <= HAM_PART_LIMIT as int,
            -(HAM_PART_LIMIT as int) <= old(self).ham_agr_external <= HAM_PART_LIMIT as int,
        ensures
            final(self).wf(),
            final(self).counts_ok(),
            final(self).energy_ok(),
            final(self).same_topology(*old(self)),
            final(self).n <= old(self).config.equilibrium_steps + 1,
    {
        self.n = 0;
        let ghost start = *self;
        let cap: u64 = self.config.equilibrium_steps;
        let mut done = false;
        let mut forced = false;
        while !done
            invariant
                self.wf(),
                self.counts_ok(),
                self.energy_ok(),
                self.same_topology(start),
                cap == start.config.equilibrium_steps,
                cap <= EQ_STEPS_LIMIT,
                self.n <= cap + 1,
                !done ==> self.n <= cap,
                -(HAM_PART_LIMIT as int) - self.n * (AGR_SWEEP_GROWTH as int) <= self.ham_agr_internal
                    <= HAM_PART_LIMIT as int + self.n * (AGR_SWEEP_GROWTH as int),
                -(HAM_PART_LIMIT as int) - self.n * (AGR_SWEEP_GROWTH as int) <= self.ham_agr_external
                    <= HAM_PART_LIMIT as int + self.n * (AGR_SWEEP_GROWTH as int),
            decreases cap + 1 - self.n,
        {
            let prev_state = StateSnapshot::of_simulation(&*self);
            self.mc_iter(rand);
            if advance_time && self.time < u64::MAX {
                self.time = self.time + 1;
            }
            self.n = self.n + 1;
            let eq = self.is_at_equilibrium(&prev_state);
            if eq || self.n > cap {
                done = true;
                forced = !eq;
            }
        }
        forced
    }

    /// Recompute both Hamiltonian components from the lattice and reset the
    /// aggregated energies to them, the mandated drift guard at every
    /// equilibration boundary.
    pub fn refresh_energies(&mut self)
        requires
            old(self).wf(),
        ensures
            final(self).wf(),
            final(self).energy_ok(),
            final(self).same_topology(*old(self)),
            final(self).network.spins.xs@ == old(self).network.spins.xs@,
            final(self).time == old(self).time,
            final(self).n == old(self).n,
            final(self).spin_sum == old(self).spin_sum,
            -(HAM_PART_LIMIT as int) <= final(self).ham_agr_internal <= HAM_PART_LIMIT as int,
            -(HAM_PART_LIMIT as int) <= final(self).ham_agr_external <= HAM_PART_LIMIT as int,
    {
        self.ham_internal = self.calc_h_internal();
        self.ham_agr_internal = self.ham_internal as i128;
        self.ham_external = self.calc_h_external();
        self.ham_agr_external = self.ham_external as i128;
    }

    /// The hysteresis protocol: relax once at the starting field, then step
    /// the field toward `h_max`, flip direction at either extreme, and stop
    /// when `h_max` is reached the second time; one record per equilibrated
    /// step. The boundary is recorded exactly twice, once per direction.
    pub fn simulate_hysteresis(
        &mut self,
        config: HysteresisConfig,
        rand: &mut rand_chacha::ChaCha20Rng,
    ) -> (recs: Vec<SweepRecord>)
        requires
            old(self).wf(),
            config.ok(),
            config.h_min < old(self).config.h < config.h_max,
        ensures
            final(self).wf(),
            spec_boundary_count(recs@, config.h_min as int, config.h_max as int) == 2,
            final(self).config.h >= config.h_max,
            recs@.len() >= 2,
            recs@[0].param == old(self).config.h,
            recs@[1].param == recs@[0].param + config.h_step,
            forall|k: int|
                0 <= k < recs@.len() - 1 ==> (#[trigger] recs@[k]).param + config.h_step == recs@[
                k + 1].param || recs@[k].param - config.h_step == recs@[k + 1].param,
            forall|k: int|
                0 <= k < recs@.len() - 1 && (#[trigger] recs@[k]).param >= config.h_max ==> recs@[
                k + 1].param == recs@[k].param - config.h_step,
            forall|k: int|
                0 <= k < recs@.len() - 1 && (#[trigger] recs@[k]).param <= config.h_min ==> recs@[
                k + 1].param == recs@[k].param + config.h_step,
            forall|k: int|
                1 <= k < recs@.len() - 1 && config.h_min < (#[trigger] recs@[k]).param
                    < config.h_max ==> recs@[k + 1].param - recs@[k].param == recs@[k].param
                    - recs@[k - 1].param,
            forall|k: int|
                0 <= k < recs@.len() ==> -SCALE <= (#[trigger] recs@[k]).mag <= SCALE
                    && config.h_min - config.h_step < recs@[k].param < config.h_max
                    + config.h_step,
            final(self).network.lattice == old(self).network.lattice,
            final(self).network.size == old(self).network.size,
            final(self).free_count == old(self).free_count,
            final(self).config == (SimulationConfig { h: final(self).config.h, ..old(self).config }),
    {
        self.refresh_energies();
        self.calc_magnetisation();

        let mut saw_max = false;
        let mut step_direction: i64 = 1;
        self.time = 0;

        // discard the transient bias of the initial lattice: equilibrate
        // once without recording or advancing time
        let _ = self.equilibrate(false, rand);
        self.refresh_energies();

        let ghost start = *self;
        let mut recs: Vec<SweepRecord> = Vec::new();
        while !(self.config.h >= config.h_max && saw_max)
            invariant
                self.wf(),
                self.counts_ok(),
                self.energy_ok(),
                config.ok(),
                self.network.lattice == start.network.lattice,
                self.network.size == start.network.size,
                self.free_count == start.free_count,
                self.config == (SimulationConfig { h: self.config.h, ..start.config }),
                -(HAM_PART_LIMIT as int) <= self.ham_agr_internal <= HAM_PART_LIMIT as int,
                -(HAM_PART_LIMIT as int) <= self.ham_agr_external <= HAM_PART_LIMIT as int,
                step_direction == 1 || step_direction == -1,
                !saw_max ==> step_direction == 1 && spec_boundary_count(recs@,
                    config.h_min as int, config.h_max as int) == 0 && config.h_min
                    < self.config.h && self.config.h < config.h_max + config.h_step,
                saw_max && step_direction == -1 ==> spec_boundary_count(recs@,
                    config.h_min as int, config.h_max as int) == 1 && config.h_min
                    - config.h_step < self.config.h && self.config.h < config.h_max,
                saw_max && step_direction == 1 ==> spec_boundary_count(recs@,
                    config.h_min as int, config.h_max as int) == 2 && config.h_min
                    < self.config.h && self.config.h < config.h_max + config.h_step,
                forall|k: int|
                    0 <= k < recs@.len() ==> -SCALE <= (#[trigger] recs@[k]).mag <= SCALE
                        && config.h_min - config.h_step < recs@[k].param < config.h_max
                        + config.h_step,
                config.h_min < start.config.h < config.h_max,
                recs@.len() == 0 ==> self.config.h == start.config.h && step_direction == 1
                    && !saw_max,
                recs@.len() == 1 ==> step_direction == 1,
                recs@.len() >= 1 ==> recs@[0].param == start.config.h,
                recs@.len() >= 2 ==> recs@[1].param == recs@[0].param + config.h_step,
                recs@.len() >= 1 ==> (step_direction == 1 ==> self.config.h == recs@[recs@.len()
                    - 1].param + config.h_step) && (step_direction == -1 ==> self.config.h
                    == recs@[recs@.len() - 1].param - config.h_step),
                recs@.len() >= 1 ==> ((#[trigger] recs@[recs@.len() - 1]).param >= config.h_max
                    ==> step_direction == -1) && (recs@[recs@.len() - 1].param <= config.h_min
                    ==> step_direction == 1),
                recs@.len() >= 2 && config.h_min < recs@[recs@.len() - 1].param < config.h_max
                    ==> (step_direction == 1 ==> recs@[recs@.len() - 1].param == recs@[
                recs@.len() - 2].param + config.h_step) && (step_direction == -1 ==> recs@[
                recs@.len() - 1].param == recs@[recs@.len() - 2].param - config.h_step),
                forall|k: int|
                    0 <= k < recs@.len() - 1 ==> (#[trigger] recs@[k]).param + config.h_step
                        == recs@[k + 1].param || recs@[k].param - config.h_step == recs@[k
                        + 1].param,
                forall|k: int|
                    0 <= k < recs@.len() - 1 && (#[trigger] recs@[k]).param >= config.h_max
                        ==> recs@[k + 1].param == recs@[k].param - config.h_step,
                forall|k: int|
                    0 <= k < recs@.len() - 1 && (#[trigger] recs@[k]).param <= config.h_min
                        ==> recs@[k + 1].param == recs@[k].param + config.h_step,
                forall|k: int|
                    1 <= k < recs@.len() - 1 && config.h_min < (#[trigger] recs@[k]).param
                        < config.h_max ==> recs@[k + 1].param - recs@[k].param == recs@[k].param
                        - recs@[k - 1].param,
            decreases
                (if !saw_max {
                    2int
                } else if step_direction == -1 {
                    1int
                } else {
                    0int
                }),
                (if step_direction == 1 {
                    config.h_max + config.h_step - self.config.h
                } else {
                    self.config.h - (config.h_min - config.h_step)
                }),
        {
            let is_max = self.config.h >= config.h_max || self.config.h <= config.h_min;
            if is_max {
                step_direction = -step_direction;
            }
            saw_max = saw_max || is_max;

            let forced = self.equilibrate(true, rand);

            self.refresh_energies();
            self.calc_magnetisation();

            let mut rec = self.snapshot_hysteresis();
            rec.forced = forced;
            proof {
                lemma_boundary_count_push(recs@, rec, config.h_min as int, config.h_max as int);
                lemma_magnetization_bounded(*self);
            }
            recs.push(rec);

            let delta: i64 = if step_direction == 1 {
                config.h_step
            } else {
                -config.h_step
            };
            self.config.h = self.config.h + delta;
            // the field entered the Hamiltonian: recompute the field energy
            // so the tracked components match the new configuration
            self.refresh_energies();
        }
        proof {
            lemma_boundary_count_le_len(recs@, config.h_min as int, config.h_max as int);
        }
        recs
    }

    /// The phase protocol: force full alignment, then step the temperature
    /// upward, equilibrating and recording at each step, until the order
    /// parameter turns negative (or the configured ceiling is passed).
    pub fn simulate_phase(
        &mut self,
        config: PhaseConfig,
        rand: &mut rand_chacha::ChaCha20Rng,
    ) -> (recs: Vec<SweepRecord>)
        requires
            old(self).wf(),
            config.ok(),
            0 <= old(self).config.temp <= config.t_max,
        ensures
            final(self).wf(),
            final(self).spec_mag() < 0 || final(self).config.temp > config.t_max,
            recs@.len() >= 1,
            forall|k: int|
                0 <= k < recs@.len() ==> -SCALE <= (#[trigger] recs@[k]).mag <= SCALE && recs@[
                k].param <= config.t_max,
            forall|k: int|
                0 <= k < recs@.len() ==> (#[trigger] recs@[k]).param == old(self).config.temp + k
                    * config.t_step,
            final(self).config.temp == old(self).config.temp + recs@.len() * config.t_step,
            forall|k1: int, k2: int|
                0 <= k1 < k2 < recs@.len() ==> (#[trigger] recs@[k1]).param < (
                #[trigger] recs@[k2]).param,
            recs@[recs@.len() - 1].mag == final(self).spec_mag(),
            forall|k: int| 0 <= k < recs@.len() - 1 ==> (#[trigger] recs@[k]).mag >= 0,
            final(self).network.lattice == old(self).network.lattice,
            final(self).network.size == old(self).network.size,
            final(self).free_count == old(self).free_count,
            final(self).config == (SimulationConfig {
                temp: final(self).config.temp,
                ..old(self).config
            }),
    {
        proof {
            lemma_sim_size_bounds(*self);
        }
        let n_sites: usize = self.network.size * self.network.size;
        let mut i: usize = 0;
        while i < n_sites
            invariant
                self.wf(),
                n_sites == self.network.size * self.network.size,
                i <= n_sites,
                self.network.spins.xs@.len() == n_sites,
                forall|t: int| 0 <= t < i ==> (#[trigger] self.network.spins.xs@[t]) == 1i8,
                self.same_topology(*old(self)),
            decreases n_sites - i,
        {
            self.network.spins.set(i, 1);
            i = i + 1;
        }

        self.refresh_energies();
        let mut m: i64 = self.calc_magnetisation();
        proof {
            lemma_spin_sum_ones(self.network.spins.xs@, (self.network.size
                * self.network.size) as int);
            vstd::arithmetic::div_mod::lemma_div_pos_is_pos(self.spin_sum * SCALE, (
            self.network.size * self.network.size) as int);
            assert(m >= 0);
        }

        let ghost start = *self;
        let mut recs: Vec<SweepRecord> = Vec::new();
        while m >= 0 && self.config.temp <= config.t_max
            invariant
                self.wf(),
                self.counts_ok(),
                self.energy_ok(),
                config.ok(),
                m == self.spec_mag(),
                self.network.lattice == start.network.lattice,
                self.network.size == start.network.size,
                self.free_count == start.free_count,
                self.config == (SimulationConfig { temp: self.config.temp, ..start.config }),
                self.config.temp <= config.t_max + config.t_step,
                -(HAM_PART_LIMIT as int) <= self.ham_agr_internal <= HAM_PART_LIMIT as int,
                -(HAM_PART_LIMIT as int) <= self.ham_agr_external <= HAM_PART_LIMIT as int,
                recs@.len() >= 1 || (m >= 0 && self.config.temp <= config.t_max),
                forall|k: int|
                    0 <= k < recs@.len() ==> -SCALE <= (#[trigger] recs@[k]).mag <= SCALE
                        && recs@[k].param <= config.t_max && recs@[k].param < self.config.temp,
                forall|k: int|
                    0 <= k < recs@.len() ==> (#[trigger] recs@[k]).param == start.config.temp + k
                        * config.t_step,
                self.config.temp == start.config.temp + recs@.len() * config.t_step,
                recs@.len() >= 1 ==> recs@[recs@.len() - 1].mag == m,
                forall|k: int| 0 <= k < recs@.len() - 1 ==> (#[trigger] recs@[k]).mag >= 0,
            decreases config.t_max + config.t_step - self.config.temp,
        {
            let ghost m_entry = m;
            let forced = self.equilibrate(true, rand);

            self.refresh_energies();
            m = self.calc_magnetisation();

            let mut rec = self.snapshot_phase();
            rec.forced = forced;
            proof {
                lemma_magnetization_bounded(*self);
                assert(recs@.len() >= 1 ==> recs@[recs@.len() - 1].mag == m_entry);
            }
            recs.push(rec);

            proof {
                assert((recs@.len() as int) * config.t_step == (recs@.len() - 1)
                    * config.t_step + config.t_step) by (nonlinear_arith);
            }
            self.config.temp = self.config.temp + config.t_step;
        }
        proof {
            if recs@.len() >= 2 {
                assert forall|k1: int, k2: int|
                    0 <= k1 < k2 < recs@.len() implies (#[trigger] recs@[k1]).param < (
                #[trigger] recs@[k2]).param by {
                    assert(recs@[k1].param == start.config.temp + k1 * config.t_step);
                    assert(recs@[k2].param == start.config.temp + k2 * config.t_step);
                    assert(k1 * config.t_step < k2 * config.t_step) by (nonlinear_arith)
                        requires k1 < k2, config.t_step > 0;
                }
            }
        }
        recs
    }
}

/// Whether a swept field value sits at (or beyond) either configured
/// extreme.
pub open spec fn spec_is_boundary(param: int, h_min: int, h_max: int) -> bool {
    param >= h_max || param <= h_min
}

/// How many of the emitted records were taken at a field boundary.
pub open spec fn spec_boundary_count(recs: Seq<SweepRecord>, h_min: int, h_max: int) -> int
    decreases recs.len(),
{
    if recs.len() == 0 {
        0
    } else {
        spec_boundary_count(recs.drop_last(), h_min, h_max) + if spec_is_boundary(
            recs.last().param as int,
            h_min,
            h_max,
        ) {
            1int
        } else {
            0int
        }
    }
}

proof fn lemma_boundary_count_le_len(recs: Seq<SweepRecord>, h_min: int, h_max: int)
    ensures
        0 <= spec_boundary_count(recs, h_min, h_max) <= recs.len(),
    decreases recs.len(),
{
    if recs.len() > 0 {
        lemma_boundary_count_le_len(recs.drop_last(), h_min, h_max);
    }
}

proof fn lemma_boundary_count_push(recs: Seq<SweepRecord>, r: SweepRecord, h_min: int, h_max: int)
    ensures
        spec_boundary_count(recs.push(r), h_min, h_max) == spec_boundary_count(recs, h_min, h_max)
            + if spec_is_boundary(r.param as int, h_min, h_max) {
            1int
        } else {
            0int
        },
{
    assert(recs.push(r).drop_last() =~= recs);
    assert(recs.push(r).last() == r);
}

/// The sum of `k` spins that are all `+1` is `k`.
proof fn lemma_spin_sum_ones(spins: Seq<i8>, k: int)
    requires
        0 <= k <= spins.len(),
        forall|i: int| 0 <= i < spins.len() ==> (#[trigger] spins[i]) == 1i8,
    ensures
        spec_spin_sum(spins, k) == k,
    decreases k,
{
    if k > 0 {
        lemma_spin_sum_ones(spins, k - 1);
    }
}

/// The convergence tolerance used for a topology kind, in fixed-point
/// units; both kinds currently share one tolerance of `1e-6`.
pub fn eq_threshold_of_type(network_type: NetworkType) -> (r: i64)
    ensures
        r == 1000i64,
{
    match network_type {
        NetworkType::Regular => 1000,
        NetworkType::Irregular => 1000,
    }
}

/// The equilibrium criterion over a pre-sweep snapshot and the state after
/// the sweep.
pub open spec fn spec_at_equilibrium(prev: StateSnapshot, sim: Simulation) -> bool {
    let d_ham = spec_abs((prev.ham_internal + prev.ham_external) - (sim.ham_internal
        + sim.ham_external));
    let d_count = spec_abs(prev.spin_sum - sim.spin_sum);
    let d_mag = spec_abs(prev.mag - sim.spec_mag());
    &&& (d_count == 2 * sim.free_count || d_mag <= sim.config.eq_threshold)
    &&& d_ham <= sim.config.eq_threshold
}

/// A well-formed engine has a positive site count of at most a million, and
/// the squared size fits comfortably in every integer type used.
proof fn lemma_sim_size_bounds(sim: Simulation)
    requires
        sim.network.wf(),
        sim.network.size <= SIM_MAX_SIZE,
    ensures
        0 < (sim.network.size as int) * (sim.network.size as int) <= 1_000_000,
{
    assert(0 < (sim.network.size as int) * (sim.network.size as int) <= 1_000_000)
        by (nonlinear_arith)
        requires 0 < sim.network.size as int <= 1000;
}

/// The normalized magnetization of any state whose spin sum is bounded by
/// the site count lies within one unit of either sign.
pub proof fn lemma_mag_bounds(spin_sum: int, n: int)
    requires
        0 < n,
        -n <= spin_sum <= n,
    ensures
        -SCALE <= spec_div_tz(spin_sum * SCALE, n) <= SCALE,
{
    if spin_sum >= 0 {
        assert(0 <= spin_sum * SCALE <= n * SCALE) by (nonlinear_arith)
            requires 0 <= spin_sum <= n, SCALE as int > 0;
        vstd::arithmetic::div_mod::lemma_div_pos_is_pos(spin_sum * SCALE, n);
        vstd::arithmetic::div_mod::lemma_div_is_ordered(spin_sum * SCALE, n * SCALE, n);
        assert(n * SCALE == SCALE as int * n) by (nonlinear_arith);
        vstd::arithmetic::div_mod::lemma_div_by_multiple(SCALE as int, n);
    } else {
        let m = -spin_sum;
        assert(0 <= m * SCALE <= n * SCALE) by (nonlinear_arith)
            requires 0 <= m <= n, SCALE as int > 0;
        vstd::arithmetic::div_mod::lemma_div_pos_is_pos(m * SCALE, n);
        vstd::arithmetic::div_mod::lemma_div_is_ordered(m * SCALE, n * SCALE, n);
        assert(n * SCALE == SCALE as int * n) by (nonlinear_arith);
        vstd::arithmetic::div_mod::lemma_div_by_multiple(SCALE as int, n);
        assert(spin_sum * SCALE == -(m * SCALE)) by (nonlinear_arith)
            requires m == -spin_sum;
    }
}

/// For every reachable (well-formed) engine state, the magnetization lies in
/// `[-1, +1]` in fixed-point units.
pub proof fn lemma_magnetization_bounded(sim: Simulation)
    requires
        sim.wf(),
    ensures
        -SCALE <= sim.spec_mag() <= SCALE,
{
    lemma_sim_size_bounds(sim);
    lemma_mag_bounds(sim.spin_sum as int, (sim.network.size * sim.network.size) as int);
}

} // verus!
