//! FIR filter nodes on `Complex<i16>` with an explicit initial state.

use vstd::prelude::*;
use crate::complex::Complex;
use crate::filter::fir;
use crate::filter::fir::{batch_output, fir_output, shift_all, shift_in};

verus! {

/// A FIR filter that takes one sample per run.
pub struct FirNode {
    taps: Vec<Complex<i16>>,
    state: Vec<Complex<i16>>,
}

impl FirNode {
    /// The filter taps.
    pub closed spec fn taps_seq(&self) -> Seq<Complex<i16>> {
        self.taps@
    }

    /// The filter state, newest sample first.
    pub closed spec fn state_seq(&self) -> Seq<Complex<i16>> {
        self.state@
    }

    /// Builds a filter with the given taps and initial state.
    pub fn new(taps: Vec<Complex<i16>>, state: Vec<Complex<i16>>) -> (r: Self)
        ensures
            r.taps_seq() == taps@,
            r.state_seq() == state@,
    {
        FirNode { taps, state }
    }

    /// Filters one sample.
    pub fn run(&mut self, input: Complex<i16>) -> (r: Complex<i16>)
        requires
            old(self).state_seq().len() > 0,
        ensures
            final(self).taps_seq() == old(self).taps_seq(),
            final(self).state_seq() == shift_in(old(self).state_seq(), input),
            r == fir_output(old(self).taps_seq(), final(self).state_seq()),
    {
        fir::fir(&input, self.taps.as_slice(), &mut self.state)
    }
}

/// A FIR filter that takes a batch of samples per run.
pub struct BatchFirNode {
    taps: Vec<Complex<i16>>,
    state: Vec<Complex<i16>>,
}

impl BatchFirNode {
    /// The filter taps.
    pub closed spec fn taps_seq(&self) -> Seq<Complex<i16>> {
        self.taps@
    }

    /// The filter state, newest sample first.
    pub closed spec fn state_seq(&self) -> Seq<Complex<i16>> {
        self.state@
    }

    /// Builds a filter with the given taps and initial state.
    pub fn new(taps: Vec<Complex<i16>>, state: Vec<Complex<i16>>) -> (r: Self)
        ensures
            r.taps_seq() == taps@,
            r.state_seq() == state@,
    {
        BatchFirNode { taps, state }
    }

    /// Filters a batch of samples, one output per input.
    pub fn run(&mut self, input: Vec<Complex<i16>>) -> (r: Vec<Complex<i16>>)
        requires
            input.len() > 0 ==> old(self).state_seq().len() > 0,
        ensures
            final(self).taps_seq() == old(self).taps_seq(),
            final(self).state_seq() == shift_all(old(self).state_seq(), input@),
            r@ == batch_output(old(self).taps_seq(), old(self).state_seq(), input@),
    {
        fir::batch_fir(input.as_slice(), self.taps.as_slice(), &mut self.state)
    }
}

/// Builds a sample by sample FIR node.
///
/// * `taps` - the filter taps.
/// * `state` - the initial filter state, newest sample first.
pub fn fir(taps: Vec<Complex<i16>>, state: Vec<Complex<i16>>) -> (r: FirNode)
    ensures
        r.taps_seq() == taps@,
        r.state_seq() == state@,
{
    FirNode::new(taps, state)
}

/// Builds a batch FIR node.
///
/// * `taps` - the filter taps.
/// * `state` - the initial filter state, newest sample first.
pub fn batch_fir(taps: Vec<Complex<i16>>, state: Vec<Complex<i16>>) -> (r: BatchFirNode)
    ensures
        r.taps_seq() == taps@,
        r.state_seq() == state@,
{
    BatchFirNode::new(taps, state)
}

} // verus!
