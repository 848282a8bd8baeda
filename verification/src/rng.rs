//! Random number generation from the `rand` crate, behind trusted wrappers.
//! A seeded generator's shuffles are named by the seed and the lengths of the
//! slices it shuffled before; the thread generator's are known only to be
//! permutations of what was shuffled.

use rand::rngs::{StdRng, ThreadRng};
use rand::seq::SliceRandom;
use rand::SeedableRng;
use vstd::prelude::*;

verus! {

/// `rand::rngs::StdRng`, the seedable standard generator.
#[verifier::external_type_specification]
#[verifier::external_body]
pub struct ExStdRng(StdRng);

/// `rand::rngs::ThreadRng`, the thread-local generator.
#[verifier::external_type_specification]
#[verifier::external_body]
pub struct ExThreadRng(ThreadRng);

/// Calls `StdRng::seed_from_u64` (from `SeedableRng`): a generator whose output
/// depends only on `seed`. The generator is opaque, so nothing is stated.
#[verifier::external_body]
fn seeded_rng(seed: u64) -> StdRng {
    StdRng::seed_from_u64(seed)
}

/// A `StdRng` seeded from a `u64`, with its seed and, in order, the lengths
/// of the slices it has shuffled since, as ghost state. Only `SeededRng::new`
/// makes one, so the ghost state always describes the generator.
pub struct SeededRng {
    rng: StdRng,
    seed: Ghost<u64>,
    history: Ghost<Seq<nat>>,
}

impl SeededRng {
    /// The seed the generator was made with.
    pub closed spec fn seed(&self) -> u64 {
        self.seed@
    }

    /// The lengths of the slices the generator has shuffled, in order.
    pub closed spec fn history(&self) -> Seq<nat> {
        self.history@
    }

    /// A generator seeded with `seed` that has shuffled nothing yet.
    pub fn new(seed: u64) -> (g: Self)
        ensures
            g.seed() == seed,
            g.history() == Seq::<nat>::empty(),
    {
        SeededRng { rng: seeded_rng(seed), seed: Ghost(seed), history: Ghost(Seq::empty()) }
    }
}

/// The permutation that `SliceRandom::shuffle` applies to a slice of `len`
/// elements with a `StdRng` seeded with `seed` that has shuffled slices of the
/// lengths in `history` before: entry `i` of the result is entry `p[i]` of the
/// input. The generator's state, and so the permutation, depends on nothing else.
pub uninterp spec fn std_perm(seed: u64, history: Seq<nat>, len: nat) -> Seq<int>;

/// `s` rearranged by `p`: entry `i` is entry `p[i]` of `s`.
pub open spec fn permuted<T>(s: Seq<T>, p: Seq<int>) -> Seq<T> {
    Seq::new(s.len(), |i: int| s[p[i]])
}

/// Calls `SliceRandom::shuffle` with the generator of `g`. Its source swaps
/// elements in place (Fisher-Yates), drawing one index for each position from
/// the end, so the result is a permutation of the input (same length, same
/// multiset) fixed by the generator's state and the length alone: the one
/// `std_perm` names. The slice's length joins the generator's history.
#[verifier::external_body]
pub(crate) fn shuffle_seeded<T>(v: &mut Vec<T>, g: &mut SeededRng)
    ensures
        final(v)@.len() == old(v)@.len(),
        final(v)@.to_multiset() == old(v)@.to_multiset(),
        final(v)@ == permuted(old(v)@, std_perm(old(g).seed(), old(g).history(), old(v)@.len())),
        final(g).seed() == old(g).seed(),
        final(g).history() == old(g).history().push(old(v)@.len()),
{
    v.shuffle(&mut g.rng);
}

/// Calls `rand::thread_rng`: a handle to the thread-local generator.
#[verifier::external_body]
pub(crate) fn thread_rng() -> ThreadRng {
    rand::thread_rng()
}

/// Calls `SliceRandom::shuffle` with a `ThreadRng`: a permutation of the input
/// (same length, same multiset), as its swapping source gives. Which
/// permutation depends on the thread's generator and is left unsaid.
#[verifier::external_body]
pub(crate) fn shuffle_thread<T>(v: &mut Vec<T>, rng: &mut ThreadRng)
    ensures
        final(v)@.len() == old(v)@.len(),
        final(v)@.to_multiset() == old(v)@.to_multiset(),
{
    v.shuffle(rng);
}

} // verus!
