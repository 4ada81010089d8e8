//! A Larger-than-Life cellular automaton engine.
//!
//! A square board of multi-state cells evolves generation by generation under
//! a configurable neighbourhood (topology, radius, centre inclusion) and
//! inclusive birth and survival thresholds.  Every executable function carries
//! a contract over the mathematical model of the board, a sequence of rows of
//! cell states.

pub mod board;
pub mod config;
pub mod error;
pub mod generator;
pub mod neighbourhood;
pub mod rule;
