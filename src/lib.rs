//! Four-state (0, 1, X, Z) logic words, decoded from the two-bitplane packed
//! vector format of a simulator's direct programming interface, with binary
//! and hexadecimal renderers that propagate unknown and high-impedance state.
pub mod dpi;
pub mod laws;
pub mod payload;
pub mod word;

pub use payload::Payload;
pub use word::{Logic, Sv4State};
