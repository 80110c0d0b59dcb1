use rand::SeedableRng;
use spinlattice::matrix::index_of_pos;
use spinlattice::network::{Network, NetworkType};

fn rng(seed: u64) -> rand_chacha::ChaCha20Rng {
    rand_chacha::ChaCha20Rng::seed_from_u64(seed)
}

const SCALE: i64 = 1_000_000_000;

#[test]
fn regular_degree_is_four() {
    let mut r = rng(7);
    let net = Network::new(5, &NetworkType::Regular, &mut r);
    for i in 0..25 {
        assert_eq!(net.lattice.at(i).len(), 4);
    }
    assert_eq!(net.deg_mse, 0);
    assert_eq!(net.deg_avg, 4 * SCALE);
}

#[test]
fn regular_neighbors_exact() {
    let mut r = rng(1);
    let net = Network::new(3, &NetworkType::Regular, &mut r);
    // site (1, 1) of a 3x3 torus: left, right, up, down
    let neigh = net.lattice.at(index_of_pos(3, (1, 1)));
    assert_eq!(
        neigh,
        &vec![
            index_of_pos(3, (0, 1)),
            index_of_pos(3, (2, 1)),
            index_of_pos(3, (1, 0)),
            index_of_pos(3, (1, 2)),
        ]
    );
    // wrap-around at the corner site (0, 0)
    let corner = net.lattice.at(index_of_pos(3, (0, 0)));
    assert_eq!(
        corner,
        &vec![
            index_of_pos(3, (2, 0)),
            index_of_pos(3, (1, 0)),
            index_of_pos(3, (0, 2)),
            index_of_pos(3, (0, 1)),
        ]
    );
}

#[test]
fn irregular_symmetry() {
    let mut r = rng(42);
    let net = Network::new(6, &NetworkType::Irregular, &mut r);
    let n = 36;
    for i in 0..n {
        for j in 0..n {
            let i_lists_j = net.lattice.at(i).contains(&j);
            let j_lists_i = net.lattice.at(j).contains(&i);
            assert_eq!(i_lists_j, j_lists_i, "asymmetry between {} and {}", i, j);
        }
    }
}

#[test]
fn irregular_lists_have_no_duplicates() {
    let mut r = rng(42);
    let net = Network::new(6, &NetworkType::Irregular, &mut r);
    for i in 0..36 {
        let neigh = net.lattice.at(i);
        for a in 0..neigh.len() {
            for b in (a + 1)..neigh.len() {
                assert_ne!(neigh[a], neigh[b], "site {} lists {} twice", i, neigh[a]);
            }
        }
        assert!(!neigh.contains(&i), "site {} lists itself", i);
    }
}

#[test]
fn spin_draws_row_major() {
    // sites of one row differ only in x: with a fixed seed, the assignment
    // must match a fresh generator drawn in linear site order
    let mut r1 = rng(5);
    let net = Network::new(4, &NetworkType::Regular, &mut r1);
    let mut r2 = rng(5);
    for i in 0..16 {
        let expected: i8 = if rand::Rng::gen::<bool>(&mut r2) { 1 } else { -1 };
        assert_eq!(*net.spins.at(i), expected, "draw order differs at site {}", i);
    }
}

#[test]
fn irregular_degree_at_most_eight() {
    let mut r = rng(42);
    let net = Network::new(6, &NetworkType::Irregular, &mut r);
    for i in 0..36 {
        assert!(net.lattice.at(i).len() <= 8);
    }
}

#[test]
fn topology_determinism() {
    for kind in [NetworkType::Regular, NetworkType::Irregular] {
        let mut r1 = rng(99);
        let mut r2 = rng(99);
        let a = Network::new(8, &kind, &mut r1);
        let b = Network::new(8, &kind, &mut r2);
        assert_eq!(a.spins.xs, b.spins.xs);
        assert_eq!(a.lattice.xs, b.lattice.xs);
        assert_eq!(a.deg_mse, b.deg_mse);
        assert_eq!(a.deg_avg, b.deg_avg);
    }
}

#[test]
fn spins_are_plus_or_minus_one() {
    let mut r = rng(3);
    let net = Network::new(4, &NetworkType::Regular, &mut r);
    for i in 0..16 {
        let s = *net.spins.at(i);
        assert!(s == 1 || s == -1);
    }
}

#[test]
fn flip_spin_negates() {
    let mut r = rng(3);
    let mut net = Network::new(4, &NetworkType::Regular, &mut r);
    let before = net.get_spin((2, 3));
    let after = net.flip_spin((2, 3));
    assert_eq!(after, -before);
    assert_eq!(net.get_spin((2, 3)), after);
}

#[test]
fn get_neighbours_returns_neighbor_spins() {
    let mut r = rng(5);
    let net = Network::new(4, &NetworkType::Regular, &mut r);
    let neigh_spins = net.get_neighbours((1, 2));
    let neigh_sites = net.lattice.at(index_of_pos(4, (1, 2)));
    assert_eq!(neigh_spins.len(), neigh_sites.len());
    for (k, site) in neigh_sites.iter().enumerate() {
        assert_eq!(neigh_spins[k], *net.spins.at(*site));
    }
}

#[test]
fn network_type_names() {
    assert_eq!(NetworkType::Regular.to_string(), "regular".to_owned());
    assert_eq!(NetworkType::Irregular.to_string(), "irregular".to_owned());
    assert!(matches!(NetworkType::from("irregular"), NetworkType::Irregular));
    assert!(matches!(NetworkType::from("ir"), NetworkType::Irregular));
    assert!(matches!(NetworkType::from("irreg"), NetworkType::Irregular));
    assert!(matches!(NetworkType::from("regular"), NetworkType::Regular));
    assert!(matches!(NetworkType::from("r"), NetworkType::Regular));
    assert!(matches!(NetworkType::from("anything else"), NetworkType::Regular));
}
