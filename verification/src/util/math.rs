//! Pulse shaping tap generators on integer samples.

use vstd::prelude::*;
use crate::complex::{Complex, Zero};
use crate::filter::fir::FirSample;
use crate::pulse::rect_seq;

verus! {

/// The taps of a rectangular pulse: `n_taps` samples of `1 + 0i`.
pub fn rect_taps<T: FirSample>(n_taps: usize) -> (r: Option<Vec<Complex<T>>>)
    ensures
        r matches Some(v) && v@ == rect_seq::<T>(n_taps as nat),
{
    let mut v: Vec<Complex<T>> = Vec::new();
    let mut i: usize = 0;
    while i < n_taps
        invariant
            0 <= i <= n_taps,
            v@ == rect_seq::<T>(i as nat),
        decreases n_taps - i,
    {
        v.push(Complex { re: T::one(), im: T::zero() });
        i = i + 1;
        assert(v@ =~= rect_seq::<T>(i as nat));
    }
    Some(v)
}

} // verus!
