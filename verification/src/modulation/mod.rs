//! Modulation of bits onto complex symbols.

pub mod digital;
