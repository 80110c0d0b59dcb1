//! The lattice: a square grid of spins together with a neighbor relation,
//! either the regular 4-neighbor torus or a randomly pruned irregular graph
//! over the 8 surrounding candidates.

use vstd::prelude::*;

use crate::mathy::SCALE;
use crate::matrix::{
    index_of_pos, lemma_pos_in_bounds, pos_of_index, spec_index_of_pos, spec_pos_of_index, Matrix,
};
use crate::rng;

verus! {

/// Largest lattice side the engine accepts; keeps every energy sum and
/// degree statistic inside 64-bit fixed-point range.
pub const MAX_SIZE: usize = 46_340;

#[derive(Debug, Clone, Copy, PartialEq, Eq, Structural)]
pub enum NetworkType {
    Regular,
    Irregular,
}

impl NetworkType {
    /// Parse a topology name; every accepted shorthand is listed, and
    /// anything unrecognized falls back to the regular topology.
    pub fn from(s: &str) -> (r: NetworkType)
        ensures
            r == (if s@ == "irregular"@ || s@ == "ir"@ || s@ == "irreg"@ {
                NetworkType::Irregular
            } else {
                NetworkType::Regular
            }),
    {
        let owned = s.to_owned();
        if owned == "irregular".to_owned() || owned == "ir".to_owned() || owned
            == "irreg".to_owned() {
            NetworkType::Irregular
        } else {
            NetworkType::Regular
        }
    }

    /// The topology's canonical name.
    pub fn to_string(&self) -> (r: String)
        ensures
            *self == NetworkType::Regular ==> r@ == "regular"@,
            *self == NetworkType::Irregular ==> r@ == "irregular"@,
    {
        match self {
            NetworkType::Irregular => "irregular".to_owned(),
            NetworkType::Regular => "regular".to_owned(),
        }
    }
}

/// A spin is one of the two states +1 / -1.
pub open spec fn spin_ok(s: i8) -> bool {
    s == 1 || s == -1
}

/// The previous coordinate along one axis of a torus of circumference `n`.
pub open spec fn spec_wrap_dec(n: usize, v: usize) -> usize
    recommends
        0 < n,
        v < n,
{
    if v == 0 {
        (n - 1) as usize
    } else {
        (v - 1) as usize
    }
}

/// The next coordinate along one axis of a torus of circumference `n`.
pub open spec fn spec_wrap_inc(n: usize, v: usize) -> usize
    recommends
        0 < n,
        v < n,
{
    if v + 1 == n {
        0
    } else {
        (v + 1) as usize
    }
}

fn wrap_dec(n: usize, v: usize) -> (r: usize)
    requires
        0 < n,
        v < n,
    ensures
        r == spec_wrap_dec(n, v),
        r < n,
{
    if v == 0 {
        n - 1
    } else {
        v - 1
    }
}

fn wrap_inc(n: usize, v: usize) -> (r: usize)
    requires
        0 < n,
        v < n,
    ensures
        r == spec_wrap_inc(n, v),
        r < n,
{
    if v + 1 == n {
        0
    } else {
        v + 1
    }
}

/// The four axis neighbors of the site with linear index `i`, in the fixed
/// order left, right, up, down, with periodic boundary.
pub open spec fn spec_regular_adj_at(size: usize, i: usize) -> Seq<usize>
    recommends
        0 < size,
        i < size * size,
{
    let p = spec_pos_of_index(size, i);
    let x = p.0;
    let y = p.1;
    seq![
        spec_index_of_pos(size, (spec_wrap_dec(size, x), y)) as usize,
        spec_index_of_pos(size, (spec_wrap_inc(size, x), y)) as usize,
        spec_index_of_pos(size, (x, spec_wrap_dec(size, y))) as usize,
        spec_index_of_pos(size, (x, spec_wrap_inc(size, y))) as usize,
    ]
}

/// The adjacency relation holds symmetrically: a site lists a neighbor
/// exactly when that neighbor lists it back.
pub open spec fn spec_symmetric(adj: Seq<Vec<usize>>) -> bool {
    forall|i: usize, j: usize|
        i < adj.len() && j < adj.len() ==> (adj[i as int]@.contains(j) <==> adj[j as int]@.contains(
            i,
        ))
}

/// Occurrences of site `x` among the first `k` listed neighbors.
pub open spec fn spec_occ(neigh: Seq<usize>, x: usize, k: int) -> int
    decreases k,
{
    if k <= 0 {
        0
    } else {
        spec_occ(neigh, x, k - 1) + if neigh[k - 1] == x {
            1int
        } else {
            0int
        }
    }
}

/// The adjacency relation is symmetric as a multiset: each pair of sites
/// lists the other equally often, and no site lists itself.
pub open spec fn spec_count_symmetric(adj: Seq<Vec<usize>>) -> bool {
    &&& forall|a: usize, b: usize|
        a < adj.len() && b < adj.len() ==> #[trigger] spec_occ(
            adj[a as int]@,
            b,
            adj[a as int]@.len() as int,
        ) == spec_occ(adj[b as int]@, a, adj[b as int]@.len() as int)
    &&& forall|a: usize|
        a < adj.len() ==> #[trigger] spec_occ(adj[a as int]@, a, adj[a as int]@.len() as int)
            == 0
}

/// No site lists the same neighbor twice.
pub open spec fn spec_no_duplicate_links(adj: Seq<Vec<usize>>) -> bool {
    forall|a: usize, b: usize|
        a < adj.len() && b < adj.len() ==> #[trigger] spec_occ(
            adj[a as int]@,
            b,
            adj[a as int]@.len() as int,
        ) <= 1
}

/// Two sequences that agree on a prefix have the same occurrence counts
/// over it.
pub(crate) proof fn lemma_occ_prefix(s1: Seq<usize>, s2: Seq<usize>, x: usize, k: int)
    requires
        k <= s1.len(),
        k <= s2.len(),
        forall|t: int| 0 <= t < k ==> s1[t] == s2[t],
    ensures
        spec_occ(s1, x, k) == spec_occ(s2, x, k),
    decreases k,
{
    if k > 0 {
        lemma_occ_prefix(s1, s2, x, k - 1);
    }
}

/// An occurrence count is never negative.
pub(crate) proof fn lemma_occ_nonneg(s: Seq<usize>, x: usize, k: int)
    ensures
        spec_occ(s, x, k) >= 0,
    decreases k,
{
    if k > 0 {
        lemma_occ_nonneg(s, x, k - 1);
    }
}

/// Appending one element raises the count of exactly that element.
pub(crate) proof fn lemma_occ_push(s: Seq<usize>, v: usize, x: usize)
    ensures
        spec_occ(s.push(v), x, s.len() as int + 1) == spec_occ(s, x, s.len() as int) + if v == x {
            1int
        } else {
            0int
        },
{
    assert(s.push(v)[s.len() as int] == v);
    lemma_occ_prefix(s.push(v), s, x, s.len() as int);
}

/// Linking two distinct sites to each other preserves multiset symmetry
/// and self-avoidance of the adjacency relation.
proof fn lemma_count_symmetric_link(
    before: Seq<Vec<usize>>,
    after: Seq<Vec<usize>>,
    i: usize,
    j: usize,
)
    requires
        spec_count_symmetric(before),
        i < before.len(),
        j < before.len(),
        i != j,
        after.len() == before.len(),
        after[i as int]@ == before[i as int]@.push(j),
        after[j as int]@ == before[j as int]@.push(i),
        forall|k: int| 0 <= k < before.len() && k != i && k != j ==> after[k] == before[k],
    ensures
        spec_count_symmetric(after),
{
    assert forall|a: usize, b: usize|
        a < after.len() && b < after.len() implies #[trigger] spec_occ(after[a as int]@, b,
        after[a as int]@.len() as int) == spec_occ(after[b as int]@, a,
        after[b as int]@.len() as int) by {
        lemma_occ_push(before[i as int]@, j, b);
        lemma_occ_push(before[j as int]@, i, b);
        lemma_occ_push(before[i as int]@, j, a);
        lemma_occ_push(before[j as int]@, i, a);
        assert(spec_occ(before[a as int]@, b, before[a as int]@.len() as int) == spec_occ(
            before[b as int]@, a, before[b as int]@.len() as int));
    }
    assert forall|a: usize|
        a < after.len() implies #[trigger] spec_occ(after[a as int]@, a,
        after[a as int]@.len() as int) == 0 by {
        lemma_occ_push(before[i as int]@, j, a);
        lemma_occ_push(before[j as int]@, i, a);
        assert(spec_occ(before[a as int]@, a, before[a as int]@.len() as int) == 0);
    }
}

/// Linking two distinct sites that did not yet list each other keeps every
/// neighbor list duplicate-free.
proof fn lemma_no_dup_link(before: Seq<Vec<usize>>, after: Seq<Vec<usize>>, i: usize, j: usize)
    requires
        spec_no_duplicate_links(before),
        spec_count_symmetric(before),
        i < before.len(),
        j < before.len(),
        i != j,
        spec_occ(before[i as int]@, j, before[i as int]@.len() as int) == 0,
        after.len() == before.len(),
        after[i as int]@ == before[i as int]@.push(j),
        after[j as int]@ == before[j as int]@.push(i),
        forall|k: int| 0 <= k < before.len() && k != i && k != j ==> after[k] == before[k],
    ensures
        spec_no_duplicate_links(after),
{
    assert(spec_occ(before[j as int]@, i, before[j as int]@.len() as int) == 0);
    assert forall|a: usize, b: usize|
        a < after.len() && b < after.len() implies #[trigger] spec_occ(after[a as int]@, b,
        after[a as int]@.len() as int) <= 1 by {
        lemma_occ_push(before[i as int]@, j, b);
        lemma_occ_push(before[j as int]@, i, b);
        assert(spec_occ(before[a as int]@, b, before[a as int]@.len() as int) <= 1);
    }
}

/// Appending an element to a sequence adds exactly that element to what the
/// sequence contains.
pub(crate) proof fn lemma_push_contains(s: Seq<usize>, v: usize, w: usize)
    ensures
        s.push(v).contains(w) <==> (s.contains(w) || v == w),
{
    if s.push(v).contains(w) {
        let idx = choose|idx: int| 0 <= idx < s.push(v).len() && s.push(v)[idx] == w;
        if idx < s.len() {
            assert(s[idx] == w);
        }
    }
    if s.contains(w) {
        let idx = choose|idx: int| 0 <= idx < s.len() && s[idx] == w;
        assert(s.push(v)[idx] == w);
    }
    if v == w {
        assert(s.push(v)[s.len() as int] == w);
    }
}

/// Linking two distinct sites to each other preserves the symmetry of the
/// adjacency relation.
proof fn lemma_symmetric_link(before: Seq<Vec<usize>>, after: Seq<Vec<usize>>, i: usize, j: usize)
    requires
        spec_symmetric(before),
        i < before.len(),
        j < before.len(),
        i != j,
        after.len() == before.len(),
        after[i as int]@ == before[i as int]@.push(j),
        after[j as int]@ == before[j as int]@.push(i),
        forall|k: int| 0 <= k < before.len() && k != i && k != j ==> after[k] == before[k],
    ensures
        spec_symmetric(after),
{
    assert forall|a: usize, b: usize|
        a < after.len() && b < after.len() implies (after[a as int]@.contains(b) <==> after[
        b as int]@.contains(a)) by {
        lemma_push_contains(before[i as int]@, j, b);
        lemma_push_contains(before[j as int]@, i, b);
        lemma_push_contains(before[i as int]@, j, a);
        lemma_push_contains(before[j as int]@, i, a);
        assert(before[a as int]@.contains(b) <==> before[b as int]@.contains(a));
    }
}

/// A coordinate pair inside the grid is recovered exactly from its linear
/// index.
proof fn lemma_index_coords(size: usize, x: usize, y: usize)
    requires
        0 < size,
        size * size <= usize::MAX,
        x < size,
        y < size,
    ensures
        0 <= x + y * size < size * size,
        spec_pos_of_index(size, (x + y * size) as usize) == (x, y),
{
    lemma_pos_in_bounds(size, size, x, y);
    vstd::arithmetic::div_mod::lemma_fundamental_div_mod_converse(x + y * size, size as int,
        y as int, x as int);
}

/// Each of the four directions pairs with its inverse: site `a` lists `b` in
/// one direction exactly when `b` lists `a` back in the opposite one.
proof fn lemma_regular_direction_pairing(size: usize, a: usize, b: usize)
    requires
        2 <= size,
        size * size <= usize::MAX,
        (a as int) < size * size,
        (b as int) < size * size,
    ensures
        spec_regular_adj_at(size, a)[0] == b <==> spec_regular_adj_at(size, b)[1] == a,
        spec_regular_adj_at(size, a)[1] == b <==> spec_regular_adj_at(size, b)[0] == a,
        spec_regular_adj_at(size, a)[2] == b <==> spec_regular_adj_at(size, b)[3] == a,
        spec_regular_adj_at(size, a)[3] == b <==> spec_regular_adj_at(size, b)[2] == a,
        spec_regular_adj_at(size, a)[0] != a,
        spec_regular_adj_at(size, a)[1] != a,
        spec_regular_adj_at(size, a)[2] != a,
        spec_regular_adj_at(size, a)[3] != a,
{
    let pa = spec_pos_of_index(size, a);
    let pb = spec_pos_of_index(size, b);
    let (xa, ya) = pa;
    let (xb, yb) = pb;
    vstd::arithmetic::div_mod::lemma_fundamental_div_mod(a as int, size as int);
    vstd::arithmetic::div_mod::lemma_fundamental_div_mod(b as int, size as int);
    vstd::arithmetic::div_mod::lemma_mod_division_less_than_divisor(a as int, size as int);
    vstd::arithmetic::div_mod::lemma_mod_division_less_than_divisor(b as int, size as int);
    vstd::arithmetic::div_mod::lemma_multiply_divide_lt(a as int, size as int, size as int);
    vstd::arithmetic::div_mod::lemma_multiply_divide_lt(b as int, size as int, size as int);
    assert(xa < size && ya < size && a == xa + ya * size) by {
        assert(size as int * (a as int / size as int) == (a as int / size as int) * size as int)
            by (nonlinear_arith);
    }
    assert(xb < size && yb < size && b == xb + yb * size) by {
        assert(size as int * (b as int / size as int) == (b as int / size as int) * size as int)
            by (nonlinear_arith);
    }
    lemma_index_coords(size, spec_wrap_dec(size, xa), ya);
    lemma_index_coords(size, spec_wrap_inc(size, xa), ya);
    lemma_index_coords(size, xa, spec_wrap_dec(size, ya));
    lemma_index_coords(size, xa, spec_wrap_inc(size, ya));
    lemma_index_coords(size, spec_wrap_dec(size, xb), yb);
    lemma_index_coords(size, spec_wrap_inc(size, xb), yb);
    lemma_index_coords(size, xb, spec_wrap_dec(size, yb));
    lemma_index_coords(size, xb, spec_wrap_inc(size, yb));
    lemma_index_coords(size, xa, ya);
    lemma_index_coords(size, xb, yb);
}

/// For a torus of side at least 2, the regular adjacency is symmetric as a
/// multiset and no site lists itself: every direction pairs two distinct
/// sites with its inverse direction.
pub proof fn lemma_regular_count_symmetric(size: usize, adj: Seq<Vec<usize>>)
    requires
        2 <= size,
        size * size <= usize::MAX,
        adj.len() == size * size,
        forall|i: int|
            0 <= i < adj.len() ==> (#[trigger] adj[i])@ == spec_regular_adj_at(size, i as usize),
    ensures
        spec_count_symmetric(adj),
{
    assert forall|a: usize, b: usize|
        a < adj.len() && b < adj.len() implies #[trigger] spec_occ(adj[a as int]@, b,
        adj[a as int]@.len() as int) == spec_occ(adj[b as int]@, a,
        adj[b as int]@.len() as int) by {
        lemma_regular_direction_pairing(size, a, b);
        lemma_regular_occ_unfold(adj[a as int]@, b);
        lemma_regular_occ_unfold(adj[b as int]@, a);
    }
    assert forall|a: usize|
        a < adj.len() implies #[trigger] spec_occ(adj[a as int]@, a,
        adj[a as int]@.len() as int) == 0 by {
        lemma_regular_direction_pairing(size, a, a);
        lemma_regular_occ_unfold(adj[a as int]@, a);
    }
}

/// The occurrence count over a four-entry list is the sum of four
/// indicators.
proof fn lemma_regular_occ_unfold(s: Seq<usize>, b: usize)
    requires
        s.len() == 4,
    ensures
        spec_occ(s, b, 4) == (if s[0] == b {
            1int
        } else {
            0int
        }) + (if s[1] == b {
            1int
        } else {
            0int
        }) + (if s[2] == b {
            1int
        } else {
            0int
        }) + (if s[3] == b {
            1int
        } else {
            0int
        }),
{
    assert(spec_occ(s, b, 1) == spec_occ(s, b, 0) + if s[0] == b {
        1int
    } else {
        0int
    });
    assert(spec_occ(s, b, 2) == spec_occ(s, b, 1) + if s[1] == b {
        1int
    } else {
        0int
    });
    assert(spec_occ(s, b, 3) == spec_occ(s, b, 2) + if s[2] == b {
        1int
    } else {
        0int
    });
}

/// Whether a vector of site indices mentions `x`.
fn vec_contains(v: &Vec<usize>, x: usize) -> (r: bool)
    ensures
        r == v@.contains(x),
{
    let mut k: usize = 0;
    while k < v.len()
        invariant
            k <= v@.len(),
            forall|t: int| 0 <= t < k ==> v@[t] != x,
        decreases v@.len() - k,
    {
        if v[k] == x {
            return true;
        }
        k = k + 1;
    }
    false
}

#[derive(Debug)]
pub struct Network {
    pub size: usize,
    pub spins: Matrix<i8>,
    pub lattice: Matrix<Vec<usize>>,
    pub deg_mse: i64,
    pub deg_avg: i64,
}

impl Network {
    /// Well-formedness: the grids are square of side `size`, every spin is
    /// +1 or -1, and every site lists at most 8 in-range neighbors.
    pub open spec fn wf(self) -> bool {
        &&& 0 < self.size <= MAX_SIZE
        &&& self.spins.width == self.size
        &&& self.spins.xs@.len() == self.size * self.size
        &&& self.lattice.width == self.size
        &&& self.lattice.xs@.len() == self.size * self.size
        &&& forall|i: int|
            0 <= i < self.size * self.size ==> spin_ok(#[trigger] self.spins.xs@[i])
        &&& forall|i: int|
            0 <= i < self.size * self.size ==> (#[trigger] self.lattice.xs@[i])@.len() <= 8
        &&& forall|i: int, k: int|
            0 <= i < self.size * self.size && 0 <= k < self.lattice.xs@[i]@.len()
                ==> (#[trigger] self.lattice.xs@[i]@[k]) < self.size * self.size
    }

    /// Assign each site +1 or -1 by a fair coin, consumed in row-major order.
    fn make_spins(size: usize, rand: &mut rand_chacha::ChaCha20Rng) -> (m: Matrix<i8>)
        requires
            0 < size,
            size * size <= usize::MAX,
        ensures
            m.width == size,
            m.xs@.len() == size * size,
            forall|i: int| 0 <= i < size * size ==> spin_ok(#[trigger] m.xs@[i]),
    {
        let f = |_p: ((usize, usize), (usize, usize))| -> (r: i8)
            ensures
                r == 1i8,
            {
                1i8
            };
        let mut m = Matrix::<i8>::new(size, size, f);
        assert forall|i: int| 0 <= i < size * size implies spin_ok(#[trigger] m.xs@[i]) by {
            assert(call_ensures(f, (((size, size), spec_pos_of_index(size, i as usize)),),
                m.xs@[i]));
        }
        let n: usize = size * size;
        let mut i: usize = 0;
        while i < n
            invariant
                n == size * size,
                i <= n,
                m.width == size,
                m.xs@.len() == n,
                forall|t: int| 0 <= t < n ==> spin_ok(#[trigger] m.xs@[t]),
            decreases n - i,
        {
            let s: i8 = if rng::coin(rand) {
                1
            } else {
                -1
            };
            m.set(i, s);
            i = i + 1;
        }
        m
    }

    /// The regular topology: each site links to its four axis neighbors,
    /// modulo the lattice size. Eight draws per site are consumed so the
    /// random stream stays aligned with the irregular builder's.
    fn make_lattice_regular(size: usize, rng: &mut rand_chacha::ChaCha20Rng) -> (m: Matrix<
        Vec<usize>,
    >)
        requires
            0 < size,
            size * size <= usize::MAX,
        ensures
            m.width == size,
            m.xs@.len() == size * size,
            forall|i: int|
                0 <= i < size * size ==> (#[trigger] m.xs@[i])@ == spec_regular_adj_at(
                    size,
                    i as usize,
                ),
            forall|i: int| 0 <= i < size * size ==> (#[trigger] m.xs@[i])@.len() == 4,
            forall|i: int, k: int|
                0 <= i < size * size && 0 <= k < m.xs@[i]@.len() ==> (#[trigger] m.xs@[i]@[k])
                    < size * size,
    {
        let n: usize = size * size;
        let mut xs: Vec<Vec<usize>> = Vec::new();
        let mut i: usize = 0;
        while i < n
            invariant
                0 < size,
                n == size * size,
                n <= usize::MAX,
                i <= n,
                xs@.len() == i,
                forall|t: int|
                    0 <= t < i ==> (#[trigger] xs@[t])@ == spec_regular_adj_at(size, t as usize),
                forall|t: int| 0 <= t < i ==> (#[trigger] xs@[t])@.len() == 4,
                forall|t: int, k: int|
                    0 <= t < i && 0 <= k < xs@[t]@.len() ==> (#[trigger] xs@[t]@[k]) < n,
            decreases n - i,
        {
            let mut b: usize = 0;
            while b < 8
                decreases 8 - b,
            {
                let _ = rng::next_u64(rng);
                b = b + 1;
            }
            let (x, y) = pos_of_index(size, i);
            proof {
                vstd::arithmetic::div_mod::lemma_multiply_divide_lt(i as int, size as int,
                    size as int);
            }
            let mut v: Vec<usize> = Vec::new();
            proof {
                lemma_pos_in_bounds(size, size, spec_wrap_dec(size, x), y);
                lemma_pos_in_bounds(size, size, spec_wrap_inc(size, x), y);
                lemma_pos_in_bounds(size, size, x, spec_wrap_dec(size, y));
                lemma_pos_in_bounds(size, size, x, spec_wrap_inc(size, y));
            }
            v.push(index_of_pos(size, (wrap_dec(size, x), y)));
            v.push(index_of_pos(size, (wrap_inc(size, x), y)));
            v.push(index_of_pos(size, (x, wrap_dec(size, y))));
            v.push(index_of_pos(size, (x, wrap_inc(size, y))));
            assert(v@ =~= spec_regular_adj_at(size, i));
            xs.push(v);
            i = i + 1;
        }
        Matrix { width: size, xs }
    }

    /// The eight sites surrounding `(x, y)` on the torus (axis neighbors
    /// first, then diagonals), as linear indices.
    fn candidate_sites(size: usize, x: usize, y: usize) -> (r: Vec<usize>)
        requires
            0 < size,
            size * size <= usize::MAX,
            x < size,
            y < size,
        ensures
            r@.len() == 8,
            forall|k: int| 0 <= k < 8 ==> (#[trigger] r@[k]) < size * size,
    {
        let xm = wrap_dec(size, x);
        let xp = wrap_inc(size, x);
        let ym = wrap_dec(size, y);
        let yp = wrap_inc(size, y);
        proof {
            lemma_pos_in_bounds(size, size, xm, y);
            lemma_pos_in_bounds(size, size, xp, y);
            lemma_pos_in_bounds(size, size, x, ym);
            lemma_pos_in_bounds(size, size, x, yp);
            lemma_pos_in_bounds(size, size, xm, ym);
            lemma_pos_in_bounds(size, size, xm, yp);
            lemma_pos_in_bounds(size, size, xp, ym);
            lemma_pos_in_bounds(size, size, xp, yp);
        }
        let mut r: Vec<usize> = Vec::new();
        r.push(index_of_pos(size, (xm, y)));
        r.push(index_of_pos(size, (xp, y)));
        r.push(index_of_pos(size, (x, ym)));
        r.push(index_of_pos(size, (x, yp)));
        r.push(index_of_pos(size, (xm, ym)));
        r.push(index_of_pos(size, (xm, yp)));
        r.push(index_of_pos(size, (xp, ym)));
        r.push(index_of_pos(size, (xp, yp)));
        r
    }

    /// The irregular topology: every undirected candidate pair is resolved by
    /// one fair coin, the first time it is visited; a kept edge is entered on
    /// both endpoints, so the relation stays symmetric. Sites may end up with
    /// no neighbors at all ("free" spins).
    fn make_lattice_irregular(size: usize, rng: &mut rand_chacha::ChaCha20Rng) -> (m: Matrix<
        Vec<usize>,
    >)
        requires
            0 < size,
            size * size <= usize::MAX,
        ensures
            m.width == size,
            m.xs@.len() == size * size,
            forall|i: int| 0 <= i < size * size ==> (#[trigger] m.xs@[i])@.len() <= 8,
            forall|i: int, k: int|
                0 <= i < size * size && 0 <= k < m.xs@[i]@.len() ==> (#[trigger] m.xs@[i]@[k])
                    < size * size,
            spec_symmetric(m.xs@),
            spec_count_symmetric(m.xs@),
            spec_no_duplicate_links(m.xs@),
    {
        let n: usize = size * size;
        let mut adj: Vec<Vec<usize>> = Vec::new();
        let mut decided: Vec<Vec<usize>> = Vec::new();
        let mut t: usize = 0;
        while t < n
            invariant
                t <= n,
                adj@.len() == t,
                decided@.len() == t,
                forall|a: int| 0 <= a < t ==> (#[trigger] adj@[a])@.len() == 0,
            decreases n - t,
        {
            adj.push(Vec::new());
            decided.push(Vec::new());
            t = t + 1;
        }
        assert(spec_symmetric(adj@)) by {
            assert forall|a: usize, b: usize|
                a < adj@.len() && b < adj@.len() implies (adj@[a as int]@.contains(b) <==> adj@[
                b as int]@.contains(a)) by {
                assert(adj@[a as int]@.len() == 0);
                assert(adj@[b as int]@.len() == 0);
            }
        }
        assert(spec_count_symmetric(adj@)) by {
            assert forall|a: usize, b: usize|
                a < adj@.len() && b < adj@.len() implies #[trigger] spec_occ(adj@[a as int]@, b,
            adj@[a as int]@.len() as int) == spec_occ(adj@[b as int]@, a,
            adj@[b as int]@.len() as int) by {
                assert(adj@[a as int]@.len() == 0);
                assert(adj@[b as int]@.len() == 0);
            }
            assert forall|a: usize|
                a < adj@.len() implies #[trigger] spec_occ(adj@[a as int]@, a,
            adj@[a as int]@.len() as int) == 0 by {
                assert(adj@[a as int]@.len() == 0);
            }
        }
        assert(spec_no_duplicate_links(adj@)) by {
            assert forall|a: usize, b: usize|
                a < adj@.len() && b < adj@.len() implies #[trigger] spec_occ(adj@[a as int]@, b,
            adj@[a as int]@.len() as int) <= 1 by {
                assert(adj@[a as int]@.len() == 0);
            }
        }

        let mut i: usize = 0;
        while i < n
            invariant
                0 < size,
                n == size * size,
                n <= usize::MAX,
                i <= n,
                adj@.len() == n,
                decided@.len() == n,
                forall|a: int| 0 <= a < n ==> (#[trigger] adj@[a])@.len() <= 8,
                forall|a: int, u: int|
                    0 <= a < n && 0 <= u < adj@[a]@.len() ==> (#[trigger] adj@[a]@[u]) < n,
                spec_symmetric(adj@),
                spec_count_symmetric(adj@),
                spec_no_duplicate_links(adj@),
                forall|a: usize, b: usize|
                    a < n && b < n && #[trigger] spec_occ(adj@[a as int]@, b,
                    adj@[a as int]@.len() as int) >= 1 ==> decided@[b as int]@.contains(a),
            decreases n - i,
        {
            let (x, y) = pos_of_index(size, i);
            proof {
                vstd::arithmetic::div_mod::lemma_multiply_divide_lt(i as int, size as int,
                    size as int);
            }
            let cands = Self::candidate_sites(size, x, y);
            let mut k: usize = 0;
            while k < 8
                invariant
                    0 < size,
                    n == size * size,
                    n <= usize::MAX,
                    i < n,
                    k <= 8,
                    cands@.len() == 8,
                    forall|c: int| 0 <= c < 8 ==> (#[trigger] cands@[c]) < n,
                    adj@.len() == n,
                    decided@.len() == n,
                    forall|a: int| 0 <= a < n ==> (#[trigger] adj@[a])@.len() <= 8,
                    forall|a: int, u: int|
                        0 <= a < n && 0 <= u < adj@[a]@.len() ==> (#[trigger] adj@[a]@[u]) < n,
                    spec_symmetric(adj@),
                    spec_count_symmetric(adj@),
                    spec_no_duplicate_links(adj@),
                    forall|a: usize, b: usize|
                        a < n && b < n && #[trigger] spec_occ(adj@[a as int]@, b,
                        adj@[a as int]@.len() as int) >= 1 ==> decided@[b as int]@.contains(a),
                decreases 8 - k,
            {
                let j = cands[k];
                let r = rng::coin(rng);
                let tried = vec_contains(&decided[j], i);
                let ghost dec0 = decided@;
                decided[j].push(i);
                let ghost dec1 = decided@;
                decided[i].push(j);
                proof {
                    // the decided marks only grow
                    assert forall|a: usize, b: usize|
                        #![trigger decided@[b as int]@.contains(a)]
                        a < n && b < n && dec0[b as int]@.contains(a) implies decided@[
                    b as int]@.contains(a) by {
                        lemma_push_contains(dec0[b as int]@, i, a);
                        lemma_push_contains(dec1[b as int]@, j, a);
                    }
                }
                if !tried && !r && j != i && adj[i].len() < 8 && adj[j].len() < 8 {
                    let ghost before = adj@;
                    proof {
                        // the pair was undecided, so neither side lists the
                        // other yet
                        lemma_occ_nonneg(adj@[i as int]@, j, adj@[i as int]@.len() as int);
                        if spec_occ(adj@[i as int]@, j, adj@[i as int]@.len() as int) >= 1 {
                            assert(dec0[j as int]@.contains(i));
                        }
                        assert(spec_occ(adj@[i as int]@, j, adj@[i as int]@.len() as int) == 0);
                    }
                    adj[i].push(j);
                    adj[j].push(i);
                    proof {
                        lemma_symmetric_link(before, adj@, i, j);
                        lemma_count_symmetric_link(before, adj@, i, j);
                        lemma_no_dup_link(before, adj@, i, j);
                        // the fresh link is marked on both sides
                        assert(decided@[j as int]@.contains(i)) by {
                            lemma_push_contains(dec0[j as int]@, i, i);
                        }
                        assert(decided@[i as int]@.contains(j)) by {
                            lemma_push_contains(dec1[i as int]@, j, j);
                        }
                        assert forall|a: usize, b: usize|
                            a < n && b < n && #[trigger] spec_occ(adj@[a as int]@, b,
                            adj@[a as int]@.len() as int) >= 1 implies decided@[
                        b as int]@.contains(a) by {
                            lemma_occ_push(before[i as int]@, j, b);
                            lemma_occ_push(before[j as int]@, i, b);
                            if !(a == i && b == j) && !(a == j && b == i) {
                                assert(spec_occ(before[a as int]@, b,
                                    before[a as int]@.len() as int) >= 1);
                                assert(dec0[b as int]@.contains(a));
                                lemma_push_contains(dec0[b as int]@, i, a);
                                lemma_push_contains(dec1[b as int]@, j, a);
                            }
                        }
                    }
                }
                k = k + 1;
            }
            i = i + 1;
        }
        Matrix { width: size, xs: adj }
    }

    pub fn new(size: usize, network_type: &NetworkType, rand: &mut rand_chacha::ChaCha20Rng) -> (r:
        Network)
        requires
            0 < size <= MAX_SIZE,
        ensures
            r.wf(),
            r.size == size,
            r.deg_mse == spec_deg_sq_sum(r.lattice.xs@, 4, (size * size) as int) * SCALE as int
                / (size * size) as int,
            r.deg_avg == spec_deg_sum(r.lattice.xs@, (size * size) as int) * SCALE as int / (size
                * size) as int,
            *network_type == NetworkType::Regular ==> {
                &&& forall|i: int|
                    0 <= i < size * size ==> (#[trigger] r.lattice.xs@[i])@
                        == spec_regular_adj_at(size, i as usize)
                &&& r.deg_mse == 0
                &&& r.deg_avg == 4 * SCALE
            },
            *network_type == NetworkType::Regular && size >= 2 ==> spec_count_symmetric(
                r.lattice.xs@,
            ),
            *network_type == NetworkType::Irregular ==> spec_symmetric(r.lattice.xs@)
                && spec_count_symmetric(r.lattice.xs@) && spec_no_duplicate_links(r.lattice.xs@),
    {
        proof {
            assert(size * size <= MAX_SIZE * MAX_SIZE) by (nonlinear_arith)
                requires 0 < size <= MAX_SIZE;
        }
        let spins = Network::make_spins(size, rand);
        let lattice = match network_type {
            NetworkType::Regular => Network::make_lattice_regular(size, rand),
            NetworkType::Irregular => Network::make_lattice_irregular(size, rand),
        };
        let mut m = Network { size, spins, lattice, deg_mse: 0, deg_avg: 0 };
        m.deg_mse = m.get_deg_mse(4);
        m.deg_avg = m.get_avg_deg();
        proof {
            let n = (size * size) as int;
            assert(0 < n) by (nonlinear_arith)
                requires n == (size as int) * (size as int), 0 < size;
            if *network_type == NetworkType::Regular {
                if size >= 2 {
                    lemma_regular_count_symmetric(size, m.lattice.xs@);
                }
                lemma_deg_sq_sum_regular(m.lattice.xs@, n);
                lemma_deg_sum_regular(m.lattice.xs@, n);
                vstd::arithmetic::div_mod::lemma_div_of0(n);
                assert(m.deg_mse == 0);
                assert(4 * n * SCALE == (4 * SCALE) * n) by (nonlinear_arith);
                vstd::arithmetic::div_mod::lemma_div_by_multiple(4 * SCALE as int, n);
            }
        }
        m
    }

    /// Spins of the site's neighbors, in adjacency-list order.
    pub fn get_neighbours(&self, p: (usize, usize)) -> (r: Vec<i8>)
        requires
            self.wf(),
            p.0 < self.size,
            p.1 < self.size,
        ensures
            r@.len() == self.lattice.xs@[spec_index_of_pos(self.size, p)]@.len(),
            forall|k: int|
                0 <= k < r@.len() ==> (#[trigger] r@[k]) == self.spins.xs@[self.lattice.xs@[
                    spec_index_of_pos(self.size, p)
                ]@[k] as int],
            forall|k: int| 0 <= k < r@.len() ==> spin_ok(#[trigger] r@[k]),
    {
        proof {
            lemma_pos_in_bounds(self.size, self.size, p.0, p.1);
            assert((self.size as int) * (self.size as int) <= 2_147_395_600)
                by (nonlinear_arith)
                requires 0 < self.size as int <= 46_340;
        }
        let idx = index_of_pos(self.size, p);
        let neigh = self.lattice.at(idx);
        let mut r: Vec<i8> = Vec::new();
        let mut k: usize = 0;
        while k < neigh.len()
            invariant
                self.wf(),
                idx < self.size * self.size,
                neigh == self.lattice.xs@[idx as int],
                k <= neigh@.len(),
                r@.len() == k,
                forall|t: int|
                    0 <= t < k ==> (#[trigger] r@[t]) == self.spins.xs@[neigh@[t] as int],
                forall|t: int| 0 <= t < k ==> spin_ok(#[trigger] r@[t]),
            decreases neigh@.len() - k,
        {
            let j = neigh[k];
            r.push(*self.spins.at(j));
            k = k + 1;
        }
        r
    }

    pub fn get_spin(&self, p: (usize, usize)) -> (r: i8)
        requires
            self.wf(),
            p.0 < self.size,
            p.1 < self.size,
        ensures
            r == self.spins.xs@[spec_index_of_pos(self.size, p)],
            spin_ok(r),
    {
        proof {
            lemma_pos_in_bounds(self.size, self.size, p.0, p.1);
        }
        *self.spins.at_pos(p)
    }

    /// Negate the site's spin in place and return the new value.
    pub fn flip_spin(&mut self, p: (usize, usize)) -> (r: i8)
        requires
            old(self).wf(),
            p.0 < old(self).size,
            p.1 < old(self).size,
        ensures
            final(self).wf(),
            final(self).size == old(self).size,
            final(self).lattice == old(self).lattice,
            final(self).deg_mse == old(self).deg_mse,
            final(self).deg_avg == old(self).deg_avg,
            final(self).spins.width == old(self).spins.width,
            r == -old(self).spins.xs@[spec_index_of_pos(old(self).size, p)],
            spin_ok(r),
            final(self).spins.xs@ == old(self).spins.xs@.update(
                spec_index_of_pos(old(self).size, p),
                r,
            ),
    {
        proof {
            lemma_pos_in_bounds(self.size, self.size, p.0, p.1);
        }
        let s = *self.spins.at_pos(p);
        let ns: i8 = -s;
        self.spins.set_pos(p, ns);
        ns
    }

    /// Mean squared deviation of the site degrees from `expected_deg`,
    /// in fixed-point units.
    pub fn get_deg_mse(&self, expected_deg: i64) -> (r: i64)
        requires
            self.wf(),
            0 <= expected_deg <= 100,
        ensures
            r == spec_deg_sq_sum(self.lattice.xs@, expected_deg as int, (self.size
                * self.size) as int) * SCALE as int / (self.size * self.size) as int,
            r >= 0,
    {
        proof {
            assert(0 < (self.size as int) * (self.size as int) <= 2_147_395_600)
                by (nonlinear_arith)
                requires 0 < self.size as int <= 46_340;
        }
        let n: usize = self.size * self.size;
        let mut acc: i64 = 0;
        let mut i: usize = 0;
        while i < n
            invariant
                self.wf(),
                n == self.size * self.size,
                0 < n <= 2_147_395_600,
                0 <= expected_deg <= 100,
                i <= n,
                acc == spec_deg_sq_sum(self.lattice.xs@, expected_deg as int, i as int),
                0 <= acc <= i * 10000,
            decreases n - i,
        {
            let deg: usize = self.lattice.at(i).len();
            let term: i64 = expected_deg - (deg as i64);
            assert(-8 <= term <= 100);
            assert(term * term <= 10000) by (nonlinear_arith)
                requires -8 <= term <= 100;
            assert(term * term >= 0) by (nonlinear_arith);
            acc = acc + term * term;
            i = i + 1;
        }
        proof {
            assert(0 < n as int <= 2_147_395_600) by (nonlinear_arith)
                requires
                    n as int == (self.size as int) * (self.size as int),
                    0 < self.size as int <= 46_340;
            assert(acc as int * SCALE as int <= 21_473_956_000_000_000_000_000_000)
                by (nonlinear_arith)
                requires 0 <= acc as int <= 21_473_956_000_000;
            lemma_scaled_mean_bounds(acc as int, n as int, 10000);
        }
        let wide: i128 = (acc as i128) * (SCALE as i128) / (n as i128);
        wide as i64
    }

    /// Average site degree, in fixed-point units.
    pub fn get_avg_deg(&self) -> (r: i64)
        requires
            self.wf(),
        ensures
            r == spec_deg_sum(self.lattice.xs@, (self.size * self.size) as int) * SCALE as int
                / (self.size * self.size) as int,
            r >= 0,
    {
        proof {
            assert(0 < (self.size as int) * (self.size as int) <= 2_147_395_600)
                by (nonlinear_arith)
                requires 0 < self.size as int <= 46_340;
        }
        let n: usize = self.size * self.size;
        let mut acc: i64 = 0;
        let mut i: usize = 0;
        while i < n
            invariant
                self.wf(),
                n == self.size * self.size,
                0 < n <= 2_147_395_600,
                i <= n,
                acc == spec_deg_sum(self.lattice.xs@, i as int),
                0 <= acc <= i * 8,
            decreases n - i,
        {
            let deg: usize = self.lattice.at(i).len();
            acc = acc + (deg as i64);
            i = i + 1;
        }
        proof {
            assert(0 < n as int <= 2_147_395_600) by (nonlinear_arith)
                requires
                    n as int == (self.size as int) * (self.size as int),
                    0 < self.size as int <= 46_340;
            assert(acc as int * SCALE as int <= 17_179_164_800_000_000_000)
                by (nonlinear_arith)
                requires 0 <= acc as int <= 17_179_164_800;
            lemma_scaled_mean_bounds(acc as int, n as int, 8);
        }
        let wide: i128 = (acc as i128) * (SCALE as i128) / (n as i128);
        wide as i64
    }
}

/// Sum over the first `k` sites of the squared deviation of the site's
/// degree from `expected`.
pub open spec fn spec_deg_sq_sum(adj: Seq<Vec<usize>>, expected: int, k: int) -> int
    decreases k,
{
    if k <= 0 {
        0
    } else {
        spec_deg_sq_sum(adj, expected, k - 1) + (expected - adj[k - 1]@.len()) * (expected - adj[k
            - 1]@.len())
    }
}

/// Sum of the degrees of the first `k` sites.
pub open spec fn spec_deg_sum(adj: Seq<Vec<usize>>, k: int) -> int
    decreases k,
{
    if k <= 0 {
        0
    } else {
        spec_deg_sum(adj, k - 1) + adj[k - 1]@.len()
    }
}

/// In a topology where every site has exactly four neighbors, the squared
/// deviation from four vanishes.
proof fn lemma_deg_sq_sum_regular(adj: Seq<Vec<usize>>, k: int)
    requires
        forall|i: int| 0 <= i < k ==> (#[trigger] adj[i])@.len() == 4,
    ensures
        spec_deg_sq_sum(adj, 4, k) == 0,
    decreases k,
{
    if k > 0 {
        lemma_deg_sq_sum_regular(adj, k - 1);
        assert(adj[k - 1]@.len() == 4);
    }
}

/// In a topology where every site has exactly four neighbors, the degrees
/// sum to four per site.
proof fn lemma_deg_sum_regular(adj: Seq<Vec<usize>>, k: int)
    requires
        0 <= k,
        forall|i: int| 0 <= i < k ==> (#[trigger] adj[i])@.len() == 4,
    ensures
        spec_deg_sum(adj, k) == 4 * k,
    decreases k,
{
    if k > 0 {
        lemma_deg_sum_regular(adj, k - 1);
    }
}

/// A sum of `n` per-site terms each at most `cap`, scaled up and divided by
/// `n`, stays within `[0, cap * SCALE]`.
proof fn lemma_scaled_mean_bounds(acc: int, n: int, cap: int)
    requires
        0 < n,
        0 < cap,
        0 <= acc <= n * cap,
    ensures
        0 <= acc * SCALE / n <= cap * SCALE,
{
    assert(0 <= acc * SCALE <= n * (cap * SCALE)) by (nonlinear_arith)
        requires 0 <= acc <= n * cap, SCALE as int > 0;
    vstd::arithmetic::div_mod::lemma_div_pos_is_pos(acc * SCALE as int, n);
    vstd::arithmetic::div_mod::lemma_div_is_ordered(acc * SCALE as int, n * (cap * SCALE as int),
        n);
    assert(n * (cap * SCALE as int) == (cap * SCALE as int) * n) by (nonlinear_arith);
    vstd::arithmetic::div_mod::lemma_div_by_multiple(cap * SCALE as int, n);
}

} // verus!
