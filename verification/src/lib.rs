//! Building blocks for DSP communication pipelines: pseudo-random bit
//! generators, digital modulation, integer FIR filtering, pulse shaping,
//! resampling, raw IQ sample framing and the control logic of radio front
//! ends. Every executable function states its result in its contract.

pub mod complex;
pub mod node;
pub mod filter;
pub mod prn;
pub mod modulation;
pub mod pulse;
pub mod util;
pub mod hardware;
pub mod io;
pub mod fir;
