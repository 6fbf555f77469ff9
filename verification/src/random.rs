//! Deterministic random numbers for plugins.
//!
//! A generator holds several ChaCha streams, one for each incoming message
//! stream: messages arrive in a deterministic order only within one stream,
//! so each stream draws from its own generator. Every number drawn is fixed
//! by the seed of its stream and the number of draws before it.

use rand::{RngCore, SeedableRng};
use rand_chacha::ChaCha20Rng;
use vstd::prelude::*;

verus! {

/// The ChaCha generator with twenty rounds, carried through opaquely.
#[verifier::external_type_specification]
#[verifier::external_body]
pub struct ExChaCha20Rng(rand_chacha::ChaCha20Rng);

/// The `index`-th number (counting from 0) that `RngCore::next_u64` draws
/// from a generator made by `ChaCha20Rng::seed_from_u64(seed)`.
pub uninterp spec fn chacha_u64(seed: u64, index: nat) -> u64;

/// A ChaCha generator, with the seed it was made from and the number of
/// draws made from it since. Only `chacha_from_seed` makes one and only
/// `chacha_next_u64` draws from it.
pub struct ChaChaStream {
    rng: ChaCha20Rng,
    seed: Ghost<u64>,
    draws: Ghost<nat>,
}

impl ChaChaStream {
    /// The seed the generator was made from.
    pub closed spec fn seed(self) -> u64 {
        self.seed@
    }

    /// The number of draws made from the generator.
    pub closed spec fn draws(self) -> nat {
        self.draws@
    }
}

/// Calls `ChaCha20Rng::seed_from_u64` (rand_core's `SeedableRng`), which
/// makes a generator from one integer by a fixed expansion (rand_core's
/// source), and notes the seed, with no draws made yet.
#[verifier::external_body]
fn chacha_from_seed(seed: u64) -> (s: ChaChaStream)
    ensures
        s.seed() == seed,
        s.draws() == 0,
{
    ChaChaStream { rng: ChaCha20Rng::seed_from_u64(seed), seed: Ghost(seed), draws: Ghost(0) }
}

/// Calls `RngCore::next_u64` on a ChaCha generator, which draws the next
/// 64 bits of its stream. ChaCha is deterministic: the number is the one
/// at the current position of the stream of its seed, and the position
/// moves on by one draw.
#[verifier::external_body]
fn chacha_next_u64(s: &mut ChaChaStream) -> (r: u64)
    ensures
        r == chacha_u64(old(s).seed(), old(s).draws()),
        final(s).seed() == old(s).seed(),
        final(s).draws() == old(s).draws() + 1,
{
    let r = s.rng.next_u64();
    s.draws = Ghost(s.draws@ + 1);
    r
}

/// The seed and the number of draws of each stream.
pub open spec fn stream_states(rngs: Seq<ChaChaStream>) -> Seq<(u64, nat)> {
    rngs.map_values(|s: ChaChaStream| (s.seed(), s.draws()))
}

/// The streams of a new generator with `n` streams (at least one) seeded by
/// `seed`: every stream but the last is seeded by a number drawn from the
/// stream of `seed`, in order, with no draws made; the last is the stream
/// of `seed` itself, after those draws.
pub open spec fn initial_streams(n: nat, seed: u64) -> Seq<(u64, nat)> {
    let m: nat = if n == 0 { 1 } else { n };
    Seq::new(
        m,
        |i: int|
            if i < m - 1 {
                (chacha_u64(seed, i as nat), 0nat)
            } else {
                (seed, (m - 1) as nat)
            },
    )
}

/// Generators made with the same number of streams and the same seed hold
/// the same streams, so the same calls draw the same numbers from them:
/// stream `i` but the last is seeded by the `i`-th number of the stream of
/// the seed, and the last stream is that stream after those draws.
pub proof fn lemma_equal_seeds_equal_streams(n: nat, seed: u64, other: u64, i: int)
    requires
        0 <= i < initial_streams(n, seed).len(),
    ensures
        seed == other ==> initial_streams(n, seed) == initial_streams(n, other),
        i < initial_streams(n, seed).len() - 1 ==> initial_streams(n, seed)[i] == (
            chacha_u64(seed, i as nat),
            0nat,
        ),
        i == initial_streams(n, seed).len() - 1 ==> initial_streams(n, seed)[i].0 == seed,
{
}

/// Several deterministic random number streams, one of them selected.
pub struct RandomNumberGenerator {
    rngs: Vec<ChaChaStream>,
    selected: usize,
}

impl RandomNumberGenerator {
    #[verifier::type_invariant]
    spec fn inv(self) -> bool {
        self.selected < self.rngs@.len()
    }

    /// The seed and the number of draws of each stream.
    pub closed spec fn streams(self) -> Seq<(u64, nat)> {
        stream_states(self.rngs@)
    }

    /// The number of streams.
    pub closed spec fn num_streams(self) -> nat {
        self.rngs@.len()
    }

    /// The index of the selected stream.
    pub closed spec fn selected_stream(self) -> nat {
        self.selected as nat
    }

    /// A generator with `num_streams` streams (at least one), seeded by
    /// `seed`, with the first stream selected. Every stream but the last is
    /// seeded by a number drawn from a generator seeded by `seed`; the last
    /// is that generator itself.
    pub fn new(num_streams: usize, seed: u64) -> (r: RandomNumberGenerator)
        ensures
            r.num_streams() == (if num_streams == 0 { 1 } else { num_streams as nat }),
            r.streams() == initial_streams(num_streams as nat, seed),
            r.selected_stream() == 0,
    {
        let mut rng = chacha_from_seed(seed);
        let mut rngs: Vec<ChaChaStream> = Vec::new();
        let mut i: usize = 1;
        while i < num_streams
            invariant
                1 <= i,
                i <= num_streams || i == 1,
                rngs@.len() == i - 1,
                rng.seed() == seed,
                rng.draws() == i - 1,
                forall|j: int|
                    0 <= j < i - 1 ==> #[trigger] stream_states(rngs@)[j] == (
                        chacha_u64(seed, j as nat),
                        0nat,
                    ),
            decreases num_streams - i,
        {
            let s = chacha_next_u64(&mut rng);
            let ghost before = rngs@;
            let fresh = chacha_from_seed(s);
            rngs.push(fresh);
            assert(stream_states(rngs@) =~= stream_states(before).push((s, 0nat)));
            i = i + 1;
        }
        let ghost before = rngs@;
        let ghost last = (rng.seed(), rng.draws());
        rngs.push(rng);
        assert(stream_states(rngs@) =~= stream_states(before).push(last));
        let r = RandomNumberGenerator { rngs, selected: 0 };
        assert(r.streams() =~= initial_streams(num_streams as nat, seed));
        r
    }

    /// Selects the stream that later numbers are drawn from.
    pub fn select(&mut self, index: usize)
        requires
            index < old(self).num_streams(),
        ensures
            final(self).num_streams() == old(self).num_streams(),
            final(self).streams() == old(self).streams(),
            final(self).selected_stream() == index,
    {
        self.selected = index;
    }

    /// The index of the selected stream.
    pub fn get_selected(&self) -> (r: usize)
        ensures
            r == self.selected_stream(),
            r < self.num_streams(),
    {
        proof {
            use_type_invariant(self);
        }
        self.selected
    }

    /// Draws a number from the selected stream: the number at its current
    /// position, after which the stream has made one more draw.
    pub fn random_u64(&mut self) -> (r: u64)
        ensures
            old(self).selected_stream() < old(self).num_streams(),
            r == chacha_u64(
                old(self).streams()[old(self).selected_stream() as int].0,
                old(self).streams()[old(self).selected_stream() as int].1,
            ),
            final(self).streams() == old(self).streams().update(
                old(self).selected_stream() as int,
                (
                    old(self).streams()[old(self).selected_stream() as int].0,
                    old(self).streams()[old(self).selected_stream() as int].1 + 1,
                ),
            ),
            final(self).num_streams() == old(self).num_streams(),
            final(self).selected_stream() == old(self).selected_stream(),
    {
        proof {
            use_type_invariant(&*self);
        }
        let i = self.selected;
        let r = chacha_next_u64(&mut self.rngs[i]);
        assert(self.streams() =~= old(self).streams().update(
            i as int,
            (old(self).streams()[i as int].0, old(self).streams()[i as int].1 + 1),
        ));
        r
    }
}

} // verus!
