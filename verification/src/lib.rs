//! Rule engine for a lattice line-drawing puzzle.
//!
//! Coordinates live on a 2D integer lattice. A puzzle holds runes at
//! coordinates; the player draws directed line segments between runes,
//! subject to intersection rules decided by the orb at the pen's position.
//! Activation predicates over the drawn lines decide which runes light up.

pub mod activation;
pub mod controls;
pub mod coordinate;
pub mod editor;
pub mod line;
pub mod numeric;
pub mod puzzle;
pub mod rune;
pub mod serial;
pub mod sprite;
pub mod status;
pub mod zone;
