use rand::SeedableRng;
use spinlattice::network::NetworkType;
use spinlattice::simulation::{
    eq_threshold_of_type, HysteresisConfig, PhaseConfig, Simulation, SimulationConfig,
    StateSnapshot,
};

fn rng(seed: u64) -> rand_chacha::ChaCha20Rng {
    rand_chacha::ChaCha20Rng::seed_from_u64(seed)
}

const SCALE: i64 = 1_000_000_000;

fn config(kind: NetworkType, temp: i64, h: i64, eq_steps: u64) -> SimulationConfig {
    SimulationConfig {
        temp,
        h,
        j: SCALE,
        kb: SCALE,
        equilibrium_steps: eq_steps,
        network_type: kind,
        eq_threshold: eq_threshold_of_type(kind),
    }
}

#[test]
fn threshold_is_one_millionth() {
    assert_eq!(eq_threshold_of_type(NetworkType::Regular), 1000);
    assert_eq!(eq_threshold_of_type(NetworkType::Irregular), 1000);
}

#[test]
fn new_simulation_starts_zeroed() {
    let mut r = rng(2);
    let sim = Simulation::new(6, config(NetworkType::Regular, SCALE, 0, 100), &mut r);
    assert_eq!(sim.time, 0);
    assert_eq!(sim.n, 0);
    assert_eq!(sim.spin_sum, 0);
    assert_eq!(sim.ham_internal, 0);
    assert_eq!(sim.ham_external, 0);
    assert_eq!(sim.free_count, 0); // regular: every site has 4 neighbors
}

#[test]
fn magnetization_of_aligned_lattices() {
    let mut r = rng(2);
    let mut sim = Simulation::new(4, config(NetworkType::Regular, SCALE, 0, 100), &mut r);
    for i in 0..16 {
        sim.network.spins.set(i, 1);
    }
    assert_eq!(sim.calc_magnetisation(), SCALE);
    for i in 0..16 {
        sim.network.spins.set(i, -1);
    }
    assert_eq!(sim.calc_magnetisation(), -SCALE);
}

#[test]
fn aligned_energy_is_minus_two_j_per_site() {
    // all-up 4x4 regular lattice, J = 1, H = 0: bond sum is 4 per site,
    // internal energy -J/2 * 4 * 16 = -32
    let mut r = rng(2);
    let mut sim = Simulation::new(4, config(NetworkType::Regular, SCALE, 0, 100), &mut r);
    for i in 0..16 {
        sim.network.spins.set(i, 1);
    }
    sim.refresh_energies();
    sim.calc_magnetisation();
    assert_eq!(sim.ham_internal, -32 * SCALE);
    assert_eq!(sim.ham_external, 0);
    assert_eq!(sim.ham(), -32 * SCALE);
    assert_eq!(sim.ham_agr(), -32 * SCALE as i128);
}

#[test]
fn field_energy_counts_spins() {
    // all-up 3x3 lattice with H = 0.5: external energy -0.5 * 9
    let mut r = rng(2);
    let mut sim = Simulation::new(3, config(NetworkType::Regular, SCALE, SCALE / 2, 100), &mut r);
    for i in 0..9 {
        sim.network.spins.set(i, 1);
    }
    sim.refresh_energies();
    assert_eq!(sim.ham_external, -9 * SCALE / 2);
}

#[test]
fn magnetization_stays_bounded_over_sweeps() {
    let mut r = rng(11);
    let mut sim = Simulation::new(8, config(NetworkType::Irregular, 3 * SCALE, 0, 100), &mut r);
    sim.refresh_energies();
    sim.calc_magnetisation();
    for _ in 0..30 {
        sim.mc_iter(&mut r);
        let m = sim.calc_magnetisation();
        assert!(-SCALE <= m && m <= SCALE);
    }
}

#[test]
fn unchanged_state_is_at_equilibrium() {
    let mut r = rng(4);
    let mut sim = Simulation::new(5, config(NetworkType::Regular, SCALE, 0, 100), &mut r);
    sim.refresh_energies();
    sim.calc_magnetisation();
    let snap = StateSnapshot::of_simulation(&sim);
    assert!(sim.is_at_equilibrium(&snap));
}

#[test]
fn snapshot_captures_current_scalars() {
    let mut r = rng(4);
    let mut sim = Simulation::new(5, config(NetworkType::Regular, 2 * SCALE, SCALE / 4, 77), &mut r);
    sim.refresh_energies();
    sim.calc_magnetisation();
    let hys = sim.snapshot_hysteresis();
    assert_eq!(hys.param, SCALE / 4);
    assert_eq!(hys.time, 0);
    assert_eq!(hys.energy, sim.ham());
    assert!(!hys.forced);
    let ph = sim.snapshot_phase();
    assert_eq!(ph.param, 2 * SCALE);
    assert_eq!(ph.mag, sim.calc_magnetisation());
}

#[test]
fn cold_sweeps_never_raise_energy() {
    // with temperature at zero, every accepted flip lowers (or keeps) the
    // energy, so the tracked Hamiltonian is monotone over sweeps
    let mut r = rng(17);
    let mut sim = Simulation::new(6, config(NetworkType::Irregular, 0, 0, 100), &mut r);
    sim.refresh_energies();
    sim.calc_magnetisation();
    let mut last = sim.ham();
    for _ in 0..20 {
        sim.mc_iter(&mut r);
        let e = sim.ham();
        assert!(e <= last, "energy rose from {} to {} at the cold limit", last, e);
        last = e;
    }
}

#[test]
fn free_sites_flip_every_sweep_without_field() {
    // a degree-0 site under no external field has a zero flip cost, so the
    // Metropolis rule flips it on every sweep, whatever the draws
    let mut found = false;
    for seed in 0..200 {
        let mut r = rng(seed);
        let mut sim = Simulation::new(2, config(NetworkType::Irregular, SCALE, 0, 50), &mut r);
        let free: Vec<usize> =
            (0..4).filter(|i| sim.network.lattice.at(*i).len() == 0).collect();
        if free.is_empty() {
            continue;
        }
        found = true;
        sim.refresh_energies();
        sim.calc_magnetisation();
        let before: Vec<i8> = (0..4).map(|i| *sim.network.spins.at(i)).collect();
        sim.mc_iter(&mut r);
        for &i in &free {
            assert_eq!(*sim.network.spins.at(i), -before[i]);
        }
        sim.mc_iter(&mut r);
        for &i in &free {
            assert_eq!(*sim.network.spins.at(i), before[i]);
        }
        break;
    }
    assert!(found, "no seed in range produced a free site");
}

#[test]
fn energy_books_match_after_flip() {
    // with H = 0 the whole flip cost is internal; the recomputed energies
    // must move by exactly the predicted difference
    let mut r = rng(6);
    let mut sim = Simulation::new(5, config(NetworkType::Regular, SCALE, 0, 100), &mut r);
    sim.refresh_energies();
    sim.calc_magnetisation();
    let d_ham = sim.calc_delta_h((2, 1));
    let prev = StateSnapshot::of_simulation(&sim);
    sim.network.flip_spin((2, 1));
    sim.refresh_energies();
    assert!(sim.assert_correctness(&prev, d_ham, 0, d_ham));
    assert!(!sim.assert_correctness(&prev, d_ham + 1, 0, d_ham));
}

#[test]
fn run_determinism() {
    // identical (size, kind, seed) twice: identical record sequences
    let make_run = || {
        let mut r = rng(13);
        let mut sim = Simulation::new(6, config(NetworkType::Irregular, SCALE / 10, 0, 50), &mut r);
        sim.simulate_phase(
            PhaseConfig { t_min: SCALE / 10, t_max: 5 * SCALE, t_step: SCALE / 2, s0: -SCALE },
            &mut r,
        )
    };
    let a = make_run();
    let b = make_run();
    assert_eq!(a, b);
    assert!(!a.is_empty());
}

#[test]
fn cold_aligned_lattice_never_disorders() {
    // at T ~ 0 every flip out of the aligned state raises the energy, so
    // nothing moves: a single fully magnetized record comes back
    let mut r = rng(21);
    let mut sim = Simulation::new(6, config(NetworkType::Regular, 0, 0, 50), &mut r);
    let recs = sim.simulate_phase(
        PhaseConfig { t_min: 0, t_max: 0, t_step: SCALE / 10, s0: -SCALE },
        &mut r,
    );
    assert_eq!(recs.len(), 1);
    assert_eq!(recs[0].mag, SCALE);
    assert!(!recs[0].forced);
}

#[test]
fn hysteresis_loop_closure() {
    // sweep the field over [-1, 1] and back: the boundary is visited
    // exactly twice before the loop closes
    let mut r = rng(8);
    let mut sim = Simulation::new(6, config(NetworkType::Regular, SCALE, 0, 60), &mut r);
    let hcfg = HysteresisConfig { h_min: -SCALE, h_max: SCALE, h_step: SCALE / 4 };
    let recs = sim.simulate_hysteresis(hcfg, &mut r);
    let boundary = recs
        .iter()
        .filter(|rec| rec.param >= SCALE || rec.param <= -SCALE)
        .count();
    assert_eq!(boundary, 2);
    assert!(sim.config.h >= SCALE);
    assert!(recs.len() >= 2);
    // the field trajectory: starts at the configured field, first step is
    // upward, consecutive records differ by exactly one step, and the
    // direction reverses exactly at the extremes
    assert_eq!(recs[0].param, 0);
    assert_eq!(recs[1].param, SCALE / 4);
    for k in 0..recs.len() - 1 {
        let d = recs[k + 1].param - recs[k].param;
        assert!(d == SCALE / 4 || d == -(SCALE / 4));
        if recs[k].param >= SCALE {
            assert_eq!(d, -(SCALE / 4));
        }
        if recs[k].param <= -SCALE {
            assert_eq!(d, SCALE / 4);
        }
        if k > 0 && recs[k].param.abs() < SCALE {
            assert_eq!(d, recs[k].param - recs[k - 1].param);
        }
    }
}

#[test]
fn phase_sweep_reaches_disorder() {
    // the reference scenario: size 10, temperature from 0.1 to 5.0 in
    // steps of 0.1, from full alignment; the order parameter must turn
    // negative before the ceiling
    let mut r = rng(2);
    let mut sim = Simulation::new(10, config(NetworkType::Regular, SCALE / 10, 0, 300), &mut r);
    let recs = sim.simulate_phase(
        PhaseConfig { t_min: SCALE / 10, t_max: 5 * SCALE, t_step: SCALE / 10, s0: -SCALE },
        &mut r,
    );
    assert!(!recs.is_empty());
    let last = recs.last().unwrap();
    assert!(last.mag < 0, "order parameter never turned negative: {}", last.mag);
    assert!(sim.config.temp <= 5 * SCALE, "sweep ran past the ceiling");
    // every recorded magnetization respects the physical bound, the
    // temperatures form the exact arithmetic progression, and only the
    // final record may dip below zero
    for (k, rec) in recs.iter().enumerate() {
        assert!(-SCALE <= rec.mag && rec.mag <= SCALE);
        assert_eq!(rec.param, SCALE / 10 + (k as i64) * (SCALE / 10));
        if k + 1 < recs.len() {
            assert!(rec.mag >= 0);
        }
    }
    assert_eq!(
        sim.config.temp,
        SCALE / 10 + (recs.len() as i64) * (SCALE / 10)
    );
}
