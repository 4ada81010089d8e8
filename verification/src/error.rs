//! The ways in which an operation of the engine can be rejected.

use vstd::prelude::*;

verus! {

/// Why an operation was rejected.  A rejected operation changes nothing.
#[derive(Debug, Clone, Copy, PartialEq, Eq, Structural)]
pub enum EngineError {
    /// A cell coordinate lies outside the board.
    OutOfBounds,
    /// A cell state is not below the number of states of the rule.
    InvalidCellValue,
    /// A topology token is neither of the two canonical tokens.
    InvalidNeighbourhoodToken,
}

} // verus!
