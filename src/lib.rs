//! A two-term recurrence laid out as a PLONK-style arithmetic circuit over
//! the Pallas base field: column geometry, one polynomial gate, row-by-row
//! assignment wired by copy constraints, and a public output binding,
//! together with a checker that decides whether a trace satisfies them.

pub mod field;
pub mod value;
pub mod circuit;
pub mod layout;
pub mod check;
pub mod fibonacci;
