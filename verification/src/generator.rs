//! Where random draws come from: the entropy of the machine, or a stream
//! that a 64-bit seed fixes.
//!
//! The draws themselves are made by `rand` and `rand_pcg`.  This module
//! declares their generators, names what a seeded generator returns, and puts
//! one verified front, `Generator`, before both.

use rand::rngs::ThreadRng;
use rand::Rng;
use rand::SeedableRng;
use rand_pcg::Pcg32;
use vstd::prelude::*;

verus! {

/// `rand::rngs::ThreadRng`, the generator of the current thread, which the
/// operating system seeds.  Nothing is known of what it holds.
#[verifier::external_type_specification]
#[verifier::external_body]
pub struct ExThreadRng(rand::rngs::ThreadRng);

/// `rand_pcg::Lcg64Xsh32` (also called `Pcg32`), a generator whose whole
/// state is two 64-bit words.
#[verifier::external_type_specification]
#[verifier::external_body]
pub struct ExLcg64Xsh32(rand_pcg::Lcg64Xsh32);

/// The words that a `Pcg32` holds: all that its next draws depend on.
pub uninterp spec fn pcg_words(rng: Pcg32) -> Seq<u64>;

/// The words of the `Pcg32` that `SeedableRng::seed_from_u64` makes of a seed.
pub uninterp spec fn seeded_words(seed: u64) -> Seq<u64>;

/// What `Rng::gen_range(low..=high)` draws as a `u8` from a `Pcg32` that
/// holds `words`, and the words that the generator holds afterwards.
pub uninterp spec fn pcg_u8(words: Seq<u64>, low: u8, high: u8) -> (u8, Seq<u64>);

/// What `Rng::gen_range(low..=high)` draws as a `u16` from a `Pcg32` that
/// holds `words`, and the words that the generator holds afterwards.
pub uninterp spec fn pcg_u16(words: Seq<u64>, low: u16, high: u16) -> (u16, Seq<u64>);

/// What `Rng::gen_ratio(1, 2)` draws from a `Pcg32` that holds `words`, and
/// the words that the generator holds afterwards.
pub uninterp spec fn pcg_coin(words: Seq<u64>) -> (bool, Seq<u64>);

/// Calls `rand::thread_rng`, which hands out the generator of the current
/// thread.  Nothing is claimed of it.  It panics where the operating system
/// cannot seed it.
#[verifier::external_body]
fn thread_generator() -> (rng: ThreadRng) {
    rand::thread_rng()
}

/// Calls `SeedableRng::seed_from_u64` for `Pcg32`: the generator made depends
/// on the seed alone.
#[verifier::external_body]
fn seeded_generator(seed: u64) -> (rng: Pcg32)
    ensures
        pcg_words(rng) == seeded_words(seed),
{
    Pcg32::seed_from_u64(seed)
}

/// Calls `Rng::gen_range` on a `ThreadRng` with an inclusive range of `u8`:
/// the draw lies in the range.  An empty range would panic, so none is
/// admitted.
#[verifier::external_body]
fn thread_u8(rng: &mut ThreadRng, low: u8, high: u8) -> (drawn: u8)
    requires
        low <= high,
    ensures
        low <= drawn <= high,
{
    rng.gen_range(low..=high)
}

/// Calls `Rng::gen_range` on a `ThreadRng` with an inclusive range of `u16`:
/// the draw lies in the range.  An empty range would panic, so none is
/// admitted.
#[verifier::external_body]
fn thread_u16(rng: &mut ThreadRng, low: u16, high: u16) -> (drawn: u16)
    requires
        low <= high,
    ensures
        low <= drawn <= high,
{
    rng.gen_range(low..=high)
}

/// Calls `Rng::gen_ratio` on a `ThreadRng` with a chance of one in two.
/// Nothing is claimed of the draw.
#[verifier::external_body]
fn thread_coin(rng: &mut ThreadRng) -> (heads: bool) {
    rng.gen_ratio(1, 2)
}

/// Calls `Rng::gen_range` on a `Pcg32` with an inclusive range of `u8`: the
/// draw lies in the range, and the draw and the generator afterwards depend
/// on the generator before and on the range alone.  An empty range would
/// panic, so none is admitted.
#[verifier::external_body]
fn seeded_u8(rng: &mut Pcg32, low: u8, high: u8) -> (drawn: u8)
    requires
        low <= high,
    ensures
        low <= drawn <= high,
        drawn == pcg_u8(pcg_words(*old(rng)), low, high).0,
        pcg_words(*final(rng)) == pcg_u8(pcg_words(*old(rng)), low, high).1,
{
    rng.gen_range(low..=high)
}

/// Calls `Rng::gen_range` on a `Pcg32` with an inclusive range of `u16`: the
/// draw lies in the range, and the draw and the generator afterwards depend
/// on the generator before and on the range alone.  An empty range would
/// panic, so none is admitted.
#[verifier::external_body]
fn seeded_u16(rng: &mut Pcg32, low: u16, high: u16) -> (drawn: u16)
    requires
        low <= high,
    ensures
        low <= drawn <= high,
        drawn == pcg_u16(pcg_words(*old(rng)), low, high).0,
        pcg_words(*final(rng)) == pcg_u16(pcg_words(*old(rng)), low, high).1,
{
    rng.gen_range(low..=high)
}

/// Calls `Rng::gen_ratio` on a `Pcg32` with a chance of one in two: the draw
/// and the generator afterwards depend on the generator before alone.
#[verifier::external_body]
fn seeded_coin(rng: &mut Pcg32) -> (heads: bool)
    ensures
        heads == pcg_coin(pcg_words(*old(rng))).0,
        pcg_words(*final(rng)) == pcg_coin(pcg_words(*old(rng))).1,
{
    rng.gen_ratio(1, 2)
}

/// The words that a seeded generator holds after `count` draws from
/// `0..=high`, if it held `words` before the first.
pub open spec fn words_after(words: Seq<u64>, high: u8, count: nat) -> Seq<u64>
    decreases count,
{
    if count == 0 {
        words
    } else {
        pcg_u8(words_after(words, high, (count - 1) as nat), 0, high).1
    }
}

/// The draw number `index`, counted from zero, of a run of draws from
/// `0..=high` by a seeded generator that held `words` before the first.
pub open spec fn draw_at(words: Seq<u64>, high: u8, index: nat) -> u8 {
    pcg_u8(words_after(words, high, index), 0, high).0
}

/// A source of random draws.
pub enum Generator {
    /// The generator of the current thread: its draws cannot be foretold.
    Entropy(ThreadRng),
    /// A generator made of a seed: its draws are fixed by the seed.
    Seeded(Pcg32),
}

impl Generator {
    /// The words of a seeded generator; `None` for the entropy of the machine.
    pub open spec fn words(self) -> Option<Seq<u64>> {
        match self {
            Generator::Entropy(_) => None,
            Generator::Seeded(rng) => Some(pcg_words(rng)),
        }
    }

    /// A generator: seeded where a seed is given, else that of the thread.
    pub fn new(seed: Option<u64>) -> (generator: Generator)
        ensures
            generator.words() == match seed {
                Some(s) => Some(seeded_words(s)),
                None => None,
            },
    {
        match seed {
            None => Generator::Entropy(thread_generator()),
            Some(s) => Generator::Seeded(seeded_generator(s)),
        }
    }

    /// Draws a `u8` from `low..=high`.
    pub fn draw_u8(&mut self, low: u8, high: u8) -> (drawn: u8)
        requires
            low <= high,
        ensures
            low <= drawn <= high,
            match old(self).words() {
                Some(w) => {
                    &&& drawn == pcg_u8(w, low, high).0
                    &&& final(self).words() == Some(pcg_u8(w, low, high).1)
                },
                None => final(self).words() is None,
            },
    {
        match self {
            Generator::Entropy(rng) => thread_u8(rng, low, high),
            Generator::Seeded(rng) => seeded_u8(rng, low, high),
        }
    }

    /// Draws a `u16` from `low..=high`.
    pub fn draw_u16(&mut self, low: u16, high: u16) -> (drawn: u16)
        requires
            low <= high,
        ensures
            low <= drawn <= high,
            match old(self).words() {
                Some(w) => {
                    &&& drawn == pcg_u16(w, low, high).0
                    &&& final(self).words() == Some(pcg_u16(w, low, high).1)
                },
                None => final(self).words() is None,
            },
    {
        match self {
            Generator::Entropy(rng) => thread_u16(rng, low, high),
            Generator::Seeded(rng) => seeded_u16(rng, low, high),
        }
    }

    /// Tosses a fair coin.
    pub fn coin(&mut self) -> (heads: bool)
        ensures
            match old(self).words() {
                Some(w) => {
                    &&& heads == pcg_coin(w).0
                    &&& final(self).words() == Some(pcg_coin(w).1)
                },
                None => final(self).words() is None,
            },
    {
        match self {
            Generator::Entropy(rng) => thread_coin(rng),
            Generator::Seeded(rng) => seeded_coin(rng),
        }
    }
}

} // verus!
