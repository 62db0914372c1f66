//! Pulse shaping: each symbol is followed by zeros up to the number of
//! samples per symbol, and the upsampled stream runs through a FIR filter
//! whose taps give the pulse shape.

pub mod pulse_node;

use vstd::prelude::*;
use crate::complex::Complex;
use crate::filter::fir::{
    all_zero, batch_fir, batch_output, cmul_im, cmul_re, dot_im, dot_re, fir_output, lemma_shift_all_slots, FirSample,
    shift_all, terms, zero_sample,
};
use crate::filter::fir_node::zero_state;
use crate::node::NodeError;

verus! {

/// The upsampled input of one symbol: the symbol, then `sam_per_sym - 1` zeros.
pub open spec fn pulse_input<T: FirSample>(x: Complex<T>, sam_per_sym: nat) -> Seq<Complex<T>> {
    seq![x] + Seq::new((sam_per_sym - 1) as nat, |i: int| zero_sample::<T>())
}

/// A pulse shaping filter: one symbol in, `sam_per_sym` samples out.
pub struct PulseNode<T> {
    taps: Vec<Complex<T>>,
    sam_per_sym: usize,
    state: Vec<Complex<T>>,
}

impl<T: FirSample> PulseNode<T> {
    /// The pulse shape taps.
    pub closed spec fn taps_seq(&self) -> Seq<Complex<T>> {
        self.taps@
    }

    /// The filter state, newest sample first.
    pub closed spec fn state_seq(&self) -> Seq<Complex<T>> {
        self.state@
    }

    /// The number of output samples per input symbol.
    pub closed spec fn samples_per_symbol(&self) -> nat {
        self.sam_per_sym as nat
    }

    /// Builds a pulse shaper with the given taps and an all-zero state as
    /// long as the taps.
    pub fn new(taps: Vec<Complex<T>>, sam_per_sym: usize) -> (r: Self)
        ensures
            r.taps_seq() == taps@,
            r.samples_per_symbol() == sam_per_sym,
            r.state_seq().len() == taps.len(),
            all_zero(r.state_seq()),
    {
        let len = taps.len();
        PulseNode { taps, sam_per_sym, state: zero_state(len) }
    }

    /// Shapes one symbol: filters the symbol followed by
    /// `sam_per_sym - 1` zeros and returns the `sam_per_sym` outputs.
    pub fn run(&mut self, input: &Complex<T>) -> (r: Result<Vec<Complex<T>>, NodeError>)
        requires
            old(self).samples_per_symbol() >= 1,
            old(self).state_seq().len() > 0,
        ensures
            final(self).taps_seq() == old(self).taps_seq(),
            final(self).samples_per_symbol() == old(self).samples_per_symbol(),
            final(self).state_seq() == shift_all(
                old(self).state_seq(),
                pulse_input(*input, old(self).samples_per_symbol()),
            ),
            r matches Ok(out) && out@ == batch_output(
                old(self).taps_seq(),
                old(self).state_seq(),
                pulse_input(*input, old(self).samples_per_symbol()),
            ),
    {
        let mut upsampled: Vec<Complex<T>> = Vec::new();
        upsampled.push(*input);
        let mut i: usize = 1;
        while i < self.sam_per_sym
            invariant
                1 <= i <= self.sam_per_sym,
                upsampled.len() == i,
                upsampled@[0] == *input,
                forall|j: int| 1 <= j < i ==> upsampled@[j] == zero_sample::<T>(),
            decreases self.sam_per_sym - i,
        {
            upsampled.push(Complex { re: T::zero(), im: T::zero() });
            i = i + 1;
        }
        assert(upsampled@ =~= pulse_input(*input, self.sam_per_sym as nat));
        Ok(batch_fir(upsampled.as_slice(), self.taps.as_slice(), &mut self.state))
    }
}

/// The taps of a rectangular pulse of `n` samples: all `1 + 0i`.
pub open spec fn rect_seq<T: FirSample>(n: nat) -> Seq<Complex<T>> {
    Seq::new(n, |i: int| Complex { re: T::spec_one(), im: T::spec_zero() })
}

/// A state that holds nothing but, perhaps, its oldest sample.
pub open spec fn zero_but_last<T: FirSample>(st: Seq<Complex<T>>) -> bool {
    forall|j: int| 0 <= j < st.len() - 1 ==> st[j] == zero_sample::<T>()
}

proof fn lemma_rect_sum<T: FirSample>(taps: Seq<Complex<T>>, st: Seq<Complex<T>>, x: Complex<T>, i: int, n: int)
    requires
        0 <= n <= taps.len(),
        n <= st.len(),
        forall|k: int| 0 <= k < taps.len() ==> taps[k] == (Complex { re: T::spec_one(), im: T::spec_zero() }),
        forall|k: int| 0 <= k < st.len() ==> st[k] == (if k == i { x } else { zero_sample::<T>() }),
    ensures
        dot_re(taps, st, n) == (if 0 <= i < n { x.re.value() } else { 0 }),
        dot_im(taps, st, n) == (if 0 <= i < n { x.im.value() } else { 0 }),
    decreases n,
{
    if n > 0 {
        lemma_rect_sum(taps, st, x, i, n - 1);
        let t = taps[n - 1];
        let v = st[n - 1];
        T::lemma_sample(x.re);
        assert(t.re.value() == 1 && t.im.value() == 0);
        assert(v == (if n - 1 == i { x } else { zero_sample::<T>() }));
        assert(v.re.value() == (if n - 1 == i { x.re.value() } else { 0 }));
        assert(v.im.value() == (if n - 1 == i { x.im.value() } else { 0 }));
        assert(cmul_re(t, v) == v.re.value());
        assert(cmul_im(t, v) == v.im.value());
    }
}

/// Rectangular pulse shaping holds each symbol for a whole symbol period:
/// with `sam_per_sym` unit taps and a state that is zero but for its oldest
/// sample (as after the previous symbol, or at the start), a symbol comes
/// out `sam_per_sym` times, and the state afterwards is zero but for that
/// symbol in its oldest slot.
pub proof fn lemma_rect_pulse_holds_symbol<T: FirSample>(st: Seq<Complex<T>>, x: Complex<T>, sam_per_sym: nat)
    requires
        sam_per_sym >= 1,
        st.len() == sam_per_sym,
        zero_but_last(st),
    ensures
        batch_output(rect_seq::<T>(sam_per_sym), st, pulse_input(x, sam_per_sym)) == Seq::new(
            sam_per_sym,
            |i: int| x,
        ),
        shift_all(st, pulse_input(x, sam_per_sym)).len() == sam_per_sym,
        zero_but_last(shift_all(st, pulse_input(x, sam_per_sym))),
        shift_all(st, pulse_input(x, sam_per_sym))[sam_per_sym - 1] == x,
{
    let taps = rect_seq::<T>(sam_per_sym);
    let xs = pulse_input(x, sam_per_sym);
    let out = batch_output(taps, st, xs);
    assert forall|i: int| 0 <= i < sam_per_sym implies out[i] == x by {
        let pre = xs.take(i + 1);
        lemma_shift_all_slots(st, pre);
        let s2 = shift_all(st, pre);
        assert forall|k: int| 0 <= k < s2.len() implies s2[k] == (if k == i { x } else { zero_sample::<T>() }) by {
            if k < pre.len() {
                assert(pre[pre.len() - 1 - k] == xs[i - k]);
            }
        }
        lemma_rect_sum(taps, s2, x, i, terms(taps, s2));
        assert(fir_output(taps, s2) == out[i]);
        T::lemma_sample(x.re);
        T::lemma_sample(x.im);
    }
    assert(out =~= Seq::new(sam_per_sym, |i: int| x));
    lemma_shift_all_slots(st, xs);
}

} // verus!
