//! The parameters of a rule.

use crate::generator::{pcg_coin, pcg_u16, pcg_u8, seeded_words, Generator};
use crate::neighbourhood::Neighbourhood;
use vstd::prelude::*;

verus! {

/// The parameters of a rule: stored as given, never changed by the engine.
#[derive(Debug, Clone, Copy, PartialEq)]
pub struct Config {
    /// The radius of the window.
    pub rr: u8,
    /// The number of cell states; fewer than two count as two.
    pub cc: u8,
    /// Whether the centre cell belongs to its own window (zero: it does not).
    pub mm: u8,
    /// The inclusive range of neighbour counts under which a live cell stays
    /// alive.
    pub ss: (u16, u16),
    /// The inclusive range of neighbour counts under which a dead cell comes
    /// to life.
    pub bb: (u16, u16),
    /// The topology of the window.
    pub nn: Neighbourhood,
}

impl Config {
    /// The number of states that cells really range over: `cc`, but at least
    /// two.
    pub open spec fn spec_states(&self) -> u8 {
        if self.cc < 2 {
            2
        } else {
            self.cc
        }
    }

    /// The number of states that cells really range over.
    #[verifier::when_used_as_spec(spec_states)]
    pub fn states(&self) -> (states: u8)
        ensures
            states == self.spec_states(),
            states >= 2,
    {
        if self.cc < 2 {
            2
        } else {
            self.cc
        }
    }

    /// A rule of the given parameters.
    pub fn new(
        rr: u8,
        cc: u8,
        mm: u8,
        ss: (u16, u16),
        bb: (u16, u16),
        nn: Neighbourhood,
    ) -> (config: Self)
        ensures
            config == (Config { rr, cc, mm, ss, bb, nn }),
    {
        Config { rr, cc, mm, ss, bb, nn }
    }

    /// What holds of every rule that is drawn at random: the radius lies in
    /// `1..=10`, the centre flag is zero or one, the number of states lies in
    /// `1..=25`, and each threshold range starts below the area of the window
    /// and ends between its start and that area.
    pub open spec fn is_drawn(&self) -> bool {
        let area = self.nn.spec_area(self.rr as int, self.mm as int);
        &&& 1 <= self.rr <= 10
        &&& self.mm <= 1
        &&& 1 <= self.cc <= 25
        &&& self.ss.0 < area
        &&& self.ss.0 <= self.ss.1 <= area
        &&& self.bb.0 < area
        &&& self.bb.0 <= self.bb.1 <= area
    }

    /// The rule that a seeded generator draws if it holds `words` before the
    /// first draw: the radius, the centre flag and the topology first, then
    /// the survival range and the birth range under the area of that window,
    /// and the number of states last.
    pub open spec fn drawn_from(words: Seq<u64>) -> Config {
        let (rr, after_rr) = pcg_u8(words, 1, 10);
        let (centre, after_mm) = pcg_coin(after_rr);
        let mm = if centre {
            1u8
        } else {
            0u8
        };
        let (heads, after_nn) = pcg_coin(after_mm);
        let nn = Neighbourhood::spec_of_coin(heads);
        let area = nn.spec_area(rr as int, mm as int) as u16;
        let (ss_min, after_ss_min) = pcg_u16(after_nn, 0, (area - 1) as u16);
        let (ss_max, after_ss_max) = pcg_u16(after_ss_min, ss_min, area);
        let (bb_min, after_bb_min) = pcg_u16(after_ss_max, 0, (area - 1) as u16);
        let (bb_max, after_bb_max) = pcg_u16(after_bb_min, bb_min, area);
        let (cc, _) = pcg_u8(after_bb_max, 1, 25);
        Config { rr, cc, mm, ss: (ss_min, ss_max), bb: (bb_min, bb_max), nn }
    }

    /// A rule drawn at random: from a generator made of the seed where one is
    /// given, so that one seed always gives one rule, else from the entropy
    /// of the machine.
    pub fn randomize(seed: Option<u64>) -> (config: Self)
        ensures
            config.is_drawn(),
            seed matches Some(s) ==> config == Config::drawn_from(seeded_words(s)),
    {
        let rng = Generator::new(seed);
        Config::generate_random_config(rng)
    }

    /// A rule whose parameters are drawn from `rng`, one after the other.
    pub fn generate_random_config(rng: Generator) -> (config: Config)
        ensures
            config.is_drawn(),
            rng.words() matches Some(w) ==> config == Config::drawn_from(w),
    {
        let mut rng = rng;
        let rr: u8 = rng.draw_u8(1, 10);
        let mm: u8 = if rng.coin() {
            1
        } else {
            0
        };
        let nn = Neighbourhood::randomize(&mut rng);
        let max_neighborhood_count = nn.area(rr, mm);
        assert(max_neighborhood_count >= 4) by (nonlinear_arith)
            requires
                max_neighborhood_count == nn.spec_area(rr as int, mm as int),
                1 <= rr <= 10,
        ;
        let ss_min = rng.draw_u16(0, max_neighborhood_count - 1);
        let ss_max = rng.draw_u16(ss_min, max_neighborhood_count);
        let bb_min = rng.draw_u16(0, max_neighborhood_count - 1);
        let bb_max = rng.draw_u16(bb_min, max_neighborhood_count);
        let cc = rng.draw_u8(1, 25);
        Config { rr, cc, mm, ss: (ss_min, ss_max), bb: (bb_min, bb_max), nn }
    }
}

} // verus!
