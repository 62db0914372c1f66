//! FIR filter nodes on complex 16-bit samples with a caller-given initial
//! state, for sample by sample or batch processing.

pub mod fir_node;
