//! A turmite: an agent that walks a discrete 2-D grid, turning according to a
//! rule keyed by the marker found on the cell it occupies and leaving a marker
//! behind. The crate holds the pattern-driven turning automaton: the rule
//! table parsed from a turn-alphabet string, the four-valued heading with its
//! rotation transforms, the sparse tile grid, and the per-tick step engine
//! that drives them.

pub mod error;
pub mod marker;
pub mod heading;
pub mod pattern;
pub mod grid;
pub mod engine;
