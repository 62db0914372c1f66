//! Constructor for pulse shaping nodes.

use vstd::prelude::*;
use crate::complex::Complex;
use crate::filter::fir::{all_zero, FirSample};
use crate::pulse::PulseNode;

verus! {

/// Builds a pulse shaper with the given taps, `sam_per_sym` output samples
/// per symbol, and an all-zero state as long as the taps.
pub fn pulse_node<T: FirSample>(taps: Vec<Complex<T>>, sam_per_sym: usize) -> (r: PulseNode<T>)
    ensures
        r.taps_seq() == taps@,
        r.samples_per_symbol() == sam_per_sym,
        r.state_seq().len() == taps.len(),
        all_zero(r.state_seq()),
{
    PulseNode::new(taps, sam_per_sym)
}

} // verus!
