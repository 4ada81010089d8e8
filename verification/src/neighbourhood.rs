//! The two neighbourhood topologies, their tokens and their nominal areas.

use crate::error::EngineError;
use crate::generator::{pcg_coin, Generator};
use vstd::prelude::*;

verus! {

/// The shape of the window around a cell.
#[derive(Debug, Clone, Copy, PartialEq, Eq, Structural)]
pub enum Neighbourhood {
    /// Cells within Manhattan distance `radius` of the centre.
    Neumann,
    /// Every cell of the square of half-width `radius` around the centre.
    Moore,
}

/// The largest area that `Neighbourhood::area` reports.
pub const AREA_CAP: u16 = 255;

impl Neighbourhood {
    /// The canonical token of a topology.
    pub open spec fn token(self) -> Seq<char> {
        match self {
            Neighbourhood::Neumann => seq!['N', 'N'],
            Neighbourhood::Moore => seq!['N', 'M'],
        }
    }

    /// The nominal number of cells of a window of radius `rr`, before the
    /// centre is taken out and before the cap.  For `Neumann` this is the
    /// diamond approximation `rr² + (rr + 1)²`, not the count of lattice
    /// points within Manhattan distance `rr`.
    pub open spec fn full_area(self, rr: int) -> int {
        match self {
            Neighbourhood::Moore => (2 * rr + 1) * (2 * rr + 1),
            Neighbourhood::Neumann => rr * rr + (rr + 1) * (rr + 1),
        }
    }

    /// The area that `area` computes: the nominal area, less one unless the
    /// centre counts (`mm == 1`), capped at `AREA_CAP`.
    pub open spec fn spec_area(self, rr: int, mm: int) -> int {
        let counted = if mm == 1 {
            self.full_area(rr)
        } else {
            self.full_area(rr) - 1
        };
        if counted > AREA_CAP as int {
            AREA_CAP as int
        } else {
            counted
        }
    }

    /// Parses a canonical token: `"NN"` is `Neumann`, `"NM"` is `Moore`, and
    /// every other string is rejected.
    pub fn from_str(s: &str) -> (parsed: Result<Neighbourhood, EngineError>)
        ensures
            match parsed {
                Ok(topology) => s@ == topology.token(),
                Err(e) => e == EngineError::InvalidNeighbourhoodToken
                    && s@ != Neighbourhood::Neumann.token()
                    && s@ != Neighbourhood::Moore.token(),
            },
    {
        if s.unicode_len() != 2 {
            return Err(EngineError::InvalidNeighbourhoodToken);
        }
        let first = s.get_char(0);
        let second = s.get_char(1);
        if first == 'N' && second == 'N' {
            Ok(Neighbourhood::Neumann)
        } else if first == 'N' && second == 'M' {
            Ok(Neighbourhood::Moore)
        } else {
            Err(EngineError::InvalidNeighbourhoodToken)
        }
    }

    /// Formats a topology as its canonical token.
    pub fn to_string(&self) -> (text: String)
        ensures
            text@ == self.token(),
    {
        match self {
            Neighbourhood::Moore => {
                proof {
                    reveal_strlit("NM");
                }
                "NM".to_owned()
            },
            Neighbourhood::Neumann => {
                proof {
                    reveal_strlit("NN");
                }
                "NN".to_owned()
            },
        }
    }

    /// The topology that a toss of a coin picks: `Moore` for heads, `Neumann`
    /// for tails.
    pub open spec fn spec_of_coin(heads: bool) -> Neighbourhood {
        if heads {
            Neighbourhood::Moore
        } else {
            Neighbourhood::Neumann
        }
    }

    /// The topology that a toss of a coin picks.
    #[verifier::when_used_as_spec(spec_of_coin)]
    pub fn of_coin(heads: bool) -> (topology: Neighbourhood)
        ensures
            topology == Neighbourhood::spec_of_coin(heads),
    {
        if heads {
            Neighbourhood::Moore
        } else {
            Neighbourhood::Neumann
        }
    }

    /// Picks one of the two topologies by the toss of a fair coin.
    pub fn randomize(rng: &mut Generator) -> (topology: Neighbourhood)
        ensures
            match old(rng).words() {
                Some(w) => {
                    &&& topology == Neighbourhood::spec_of_coin(pcg_coin(w).0)
                    &&& final(rng).words() == Some(pcg_coin(w).1)
                },
                None => final(rng).words() is None,
            },
    {
        let heads = rng.coin();
        Neighbourhood::of_coin(heads)
    }

    /// The nominal area of a window of radius `rr`, used to bound the
    /// thresholds of a rule: see `spec_area`.
    pub fn area(&self, rr: u8, mm: u8) -> (area: u16)
        ensures
            area == self.spec_area(rr as int, mm as int),
            area <= AREA_CAP,
    {
        let r: u32 = rr as u32;
        let full: u32 = match self {
            Neighbourhood::Moore => {
                assert((2 * r + 1) * (2 * r + 1) <= 511 * 511) by (nonlinear_arith)
                    requires
                        r <= 255,
                ;
                (2 * r + 1) * (2 * r + 1)
            },
            Neighbourhood::Neumann => {
                assert(r * r + (r + 1) * (r + 1) <= 255 * 255 + 256 * 256) by (nonlinear_arith)
                    requires
                        r <= 255,
                ;
                r * r + (r + 1) * (r + 1)
            },
        };
        assert(full >= 1) by (nonlinear_arith)
            requires
                full == (2 * r + 1) * (2 * r + 1) || full == r * r + (r + 1) * (r + 1),
                r >= 0,
        ;
        let counted: u32 = if mm == 1 {
            full
        } else {
            full - 1
        };
        if counted > 255 {
            AREA_CAP
        } else {
            counted as u16
        }
    }
}

/// The two tokens differ, so parsing the token of a topology gives that
/// topology back, and formatting what a token parses as gives the token.
pub proof fn lemma_token_names_one(a: Neighbourhood, b: Neighbourhood)
    ensures
        a.token() == b.token() <==> a == b,
{
}

} // verus!
