//! Seeded pseudo-random source for topology construction and Metropolis
//! updates, provided by the `rand_chacha` / `rand` crates behind trusted
//! wrappers. Nothing is assumed about the values drawn, only (for `shuffle`)
//! that the elements are permuted in place.

use vstd::prelude::*;

verus! {

/// `rand_chacha::ChaCha20Rng` carried as an opaque value: a deterministic
/// stream cipher based generator, advanced by every draw.
#[verifier::external_type_specification]
#[verifier::external_body]
pub struct ExChaCha20Rng(rand_chacha::ChaCha20Rng);

/// Relies on `rand::RngCore::next_u64`: draws the stream's next word;
/// any value may come back.
#[verifier::external_body]
pub(crate) fn next_u64(rng: &mut rand_chacha::ChaCha20Rng) -> (r: u64)
{
    rand::RngCore::next_u64(rng)
}

/// Relies on `rand::Rng::gen::<bool>`: a fair coin drawn from the stream;
/// either side may come back.
#[verifier::external_body]
pub(crate) fn coin(rng: &mut rand_chacha::ChaCha20Rng) -> (r: bool)
{
    rand::Rng::gen::<bool>(rng)
}

/// Relies on `rand::seq::SliceRandom::shuffle`: a Fisher-Yates pass that
/// permutes the slice in place, so the elements form the same multiset.
#[verifier::external_body]
pub(crate) fn shuffle_sites(v: &mut Vec<usize>, rng: &mut rand_chacha::ChaCha20Rng)
    ensures
        final(v)@.to_multiset() == old(v)@.to_multiset(),
{
    rand::seq::SliceRandom::shuffle(v.as_mut_slice(), rng)
}

} // verus!
