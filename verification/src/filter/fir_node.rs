//! Filter nodes that keep their taps and state between runs, for sample by
//! sample or batch processing.

use vstd::prelude::*;
use crate::complex::Complex;
use crate::filter::fir::{all_zero, batch_fir, batch_output, fir, fir_output, shift_all, shift_in, FirSample};
use crate::node::NodeError;

verus! {

/// A state of `n` zero samples.
pub fn zero_state<T: FirSample>(n: usize) -> (r: Vec<Complex<T>>)
    ensures
        r.len() == n,
        all_zero(r@),
{
    let mut v: Vec<Complex<T>> = Vec::new();
    let mut i: usize = 0;
    while i < n
        invariant
            0 <= i <= n,
            v.len() == i,
            all_zero(v@),
        decreases n - i,
    {
        v.push(Complex { re: T::zero(), im: T::zero() });
        i = i + 1;
    }
    v
}

/// A FIR filter that takes one sample per run.
pub struct FirNode<T> {
    taps: Vec<Complex<T>>,
    state: Vec<Complex<T>>,
}

impl<T: FirSample> FirNode<T> {
    /// The filter taps.
    pub closed spec fn taps_seq(&self) -> Seq<Complex<T>> {
        self.taps@
    }

    /// The filter state, newest sample first.
    pub closed spec fn state_seq(&self) -> Seq<Complex<T>> {
        self.state@
    }

    /// Builds a filter with the given taps; the state is the given one, or
    /// as many zero samples as there are taps.
    pub fn new(taps: Vec<Complex<T>>, state: Option<Vec<Complex<T>>>) -> (r: Self)
        ensures
            r.taps_seq() == taps@,
            match state {
                Some(st) => r.state_seq() == st@,
                None => r.state_seq().len() == taps.len() && all_zero(r.state_seq()),
            },
    {
        match state {
            Some(st) => FirNode { taps, state: st },
            None => {
                let len = taps.len();
                FirNode { taps, state: zero_state(len) }
            },
        }
    }

    /// Filters one sample.
    pub fn run(&mut self, input: &Complex<T>) -> (r: Result<Complex<T>, NodeError>)
        requires
            old(self).state_seq().len() > 0,
        ensures
            final(self).taps_seq() == old(self).taps_seq(),
            final(self).state_seq() == shift_in(old(self).state_seq(), *input),
            r == Ok::<Complex<T>, NodeError>(fir_output(old(self).taps_seq(), final(self).state_seq())),
    {
        Ok(fir(input, self.taps.as_slice(), &mut self.state))
    }
}

/// A FIR filter that takes a batch of samples per run.
pub struct BatchFirNode<T> {
    taps: Vec<Complex<T>>,
    state: Vec<Complex<T>>,
}

impl<T: FirSample> BatchFirNode<T> {
    /// The filter taps.
    pub closed spec fn taps_seq(&self) -> Seq<Complex<T>> {
        self.taps@
    }

    /// The filter state, newest sample first.
    pub closed spec fn state_seq(&self) -> Seq<Complex<T>> {
        self.state@
    }

    /// Builds a filter with the given taps; the state is the given one, or
    /// as many zero samples as there are taps.
    pub fn new(taps: Vec<Complex<T>>, state: Option<Vec<Complex<T>>>) -> (r: Self)
        ensures
            r.taps_seq() == taps@,
            match state {
                Some(st) => r.state_seq() == st@,
                None => r.state_seq().len() == taps.len() && all_zero(r.state_seq()),
            },
    {
        match state {
            Some(st) => BatchFirNode { taps, state: st },
            None => {
                let len = taps.len();
                BatchFirNode { taps, state: zero_state(len) }
            },
        }
    }

    /// Filters a batch of samples, one output per input.
    pub fn run(&mut self, input: &[Complex<T>]) -> (r: Result<Vec<Complex<T>>, NodeError>)
        requires
            input.len() > 0 ==> old(self).state_seq().len() > 0,
        ensures
            final(self).taps_seq() == old(self).taps_seq(),
            final(self).state_seq() == shift_all(old(self).state_seq(), input@),
            r matches Ok(out) && out@ == batch_output(old(self).taps_seq(), old(self).state_seq(), input@),
    {
        Ok(batch_fir(input, self.taps.as_slice(), &mut self.state))
    }
}

} // verus!
