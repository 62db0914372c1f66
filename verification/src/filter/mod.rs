//! Finite impulse response filtering of complex integer samples.
//!
//! FIR filters are feedforward systems: each output is a weighted sum of the
//! most recent inputs, held in the filter state, with the taps as weights.

pub mod fir;
pub mod fir_node;
