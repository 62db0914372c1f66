//! Decimation and zero-stuffing upsampling of sample streams.

use vstd::prelude::*;
use crate::complex::Zero;
use crate::node::NodeError;
use vstd::arithmetic::div_mod::{lemma_div_multiples_vanish, lemma_mod_multiples_basic};

verus! {

/// Every `rate`-th sample of `data`, starting with the first; `data` itself
/// when `rate` is 0 or 1.
pub open spec fn decimated<T>(data: Seq<T>, rate: nat) -> Seq<T> {
    if rate <= 1 {
        data
    } else {
        Seq::new(((data.len() + rate - 1) / rate as int) as nat, |i: int| data[i * rate])
    }
}

/// `data` with `rate - 1` zeros after each sample; `data` itself when
/// `rate` is 0 or 1.
pub open spec fn upsampled<T>(data: Seq<T>, rate: nat, zero: T) -> Seq<T> {
    if rate <= 1 {
        data
    } else {
        Seq::new(data.len() * rate, |i: int| if i % rate as int == 0 { data[i / rate as int] } else { zero })
    }
}

/// Whether stepping an index through `data` by `rate` stays within `usize`.
pub open spec fn decimation_fits(len: nat, rate: nat) -> bool {
    rate <= 1 || (len + rate - 1) / rate as int * rate <= usize::MAX
}

/// A node that keeps one sample out of every `dec_rate`.
pub struct DecimateNode<T> {
    dec_rate: usize,
    marker: Option<T>,
}

impl<T: Copy> DecimateNode<T> {
    /// The decimation factor.
    pub closed spec fn rate(&self) -> nat {
        self.dec_rate as nat
    }

    /// Builds a node that decimates by `dec_rate`.
    pub fn new(dec_rate: usize) -> (r: Self)
        ensures
            r.rate() == dec_rate,
    {
        DecimateNode { dec_rate, marker: None }
    }

    /// Decimates one batch.
    pub fn run(&mut self, signal: &[T]) -> (r: Result<Vec<T>, NodeError>)
        requires
            decimation_fits(signal@.len(), old(self).rate()),
        ensures
            final(self).rate() == old(self).rate(),
            r matches Ok(v) && v@ == decimated(signal@, old(self).rate()),
    {
        Ok(self.decimate(signal))
    }

    /// Keeps `data[0]`, `data[dec_rate]`, `data[2 * dec_rate]`, and so on;
    /// returns `data` unchanged when the rate is 0 or 1.
    pub fn decimate(&self, data: &[T]) -> (r: Vec<T>)
        requires
            decimation_fits(data@.len(), self.rate()),
        ensures
            r@ == decimated(data@, self.rate()),
    {
        let rate = self.dec_rate;
        let mut out: Vec<T> = Vec::new();
        if rate == 0 || rate == 1 {
            let mut i: usize = 0;
            while i < data.len()
                invariant
                    0 <= i <= data.len(),
                    out@ == data@.take(i as int),
                decreases data.len() - i,
            {
                out.push(data[i]);
                i = i + 1;
                assert(out@ =~= data@.take(i as int));
            }
            assert(data@.take(data.len() as int) =~= data@);
            return out;
        }
        let ghost n = data@.len();
        let ghost m: int = (n + rate - 1) / rate as int;
        assert(m * rate <= usize::MAX);
        let mut ix: usize = 0;
        assert(ix == out.len() * rate) by (nonlinear_arith)
            requires ix == 0, out.len() == 0;
        while ix < data.len()
            invariant
                rate >= 2,
                n == data@.len(),
                m == (n + rate - 1) / rate as int,
                m * rate <= usize::MAX,
                ix == out.len() * rate,
                out.len() <= m,
                forall|j: int| 0 <= j < out.len() ==> out@[j] == data@[j * rate],
            decreases m - out.len(),
        {
            assert(out.len() < m) by (nonlinear_arith)
                requires ix == out.len() * rate, ix < n, m == (n + rate - 1) / rate as int, rate >= 2;
            assert((out.len() + 1) * rate <= m * rate) by (nonlinear_arith)
                requires out.len() + 1 <= m, rate >= 2;
            let ghost c = out.len();
            out.push(data[ix]);
            assert(ix + rate == out.len() * rate) by (nonlinear_arith)
                requires ix == c * rate, out.len() == c + 1;
            ix = ix + rate;
        }
        assert(out.len() >= m) by (nonlinear_arith)
            requires ix == out.len() * rate, ix >= n, m == (n + rate - 1) / rate as int, rate >= 2;
        assert(out@ =~= decimated(data@, rate as nat));
        out
    }
}

/// A node that puts `ups_rate - 1` zeros after every sample.
pub struct UpsampleNode<T> {
    ups_rate: usize,
    marker: Option<T>,
}

impl<T: Copy + Zero> UpsampleNode<T> {
    /// The upsampling factor.
    pub closed spec fn rate(&self) -> nat {
        self.ups_rate as nat
    }

    /// Builds a node that upsamples by `ups_rate`.
    pub fn new(ups_rate: usize) -> (r: Self)
        ensures
            r.rate() == ups_rate,
    {
        UpsampleNode { ups_rate, marker: None }
    }

    /// Upsamples one batch.
    pub fn run(&mut self, signal: &[T]) -> (r: Result<Vec<T>, NodeError>)
        requires
            signal@.len() * old(self).rate() <= usize::MAX,
        ensures
            final(self).rate() == old(self).rate(),
            r matches Ok(v) && v@ == upsampled(signal@, old(self).rate(), T::spec_zero()),
    {
        Ok(self.upsample(signal))
    }

    /// Follows each sample of `data` by `ups_rate - 1` zeros, giving
    /// `ups_rate * data.len()` samples; returns `data` unchanged when the
    /// rate is 0 or 1.
    pub fn upsample(&self, data: &[T]) -> (r: Vec<T>)
        requires
            data@.len() * self.rate() <= usize::MAX,
        ensures
            r@ == upsampled(data@, self.rate(), T::spec_zero()),
    {
        let rate = self.ups_rate;
        let mut out: Vec<T> = Vec::new();
        if rate == 0 || rate == 1 {
            let mut i: usize = 0;
            while i < data.len()
                invariant
                    0 <= i <= data.len(),
                    out@ == data@.take(i as int),
                decreases data.len() - i,
            {
                out.push(data[i]);
                i = i + 1;
                assert(out@ =~= data@.take(i as int));
            }
            assert(data@.take(data.len() as int) =~= data@);
            return out;
        }
        let zero = T::zero();
        let mut i: usize = 0;
        while i < data.len()
            invariant
                rate >= 2,
                data@.len() * rate <= usize::MAX,
                0 <= i <= data.len(),
                zero == T::spec_zero(),
                out.len() == i * rate,
                forall|j: int| 0 <= j < out.len() ==> out@[j] == (if j % rate as int == 0 { data@[j / rate as int] } else { zero }),
            decreases data.len() - i,
        {
            assert((i + 1) * rate <= data@.len() * rate) by (nonlinear_arith)
                requires i + 1 <= data@.len(), rate >= 2;
            let ghost base = out.len();
            out.push(data[i]);
            proof {
                lemma_mod_multiples_basic(i as int, rate as int);
                lemma_div_multiples_vanish(i as int, rate as int);
                assert(base == i * rate);
            }
            let mut k: usize = 1;
            while k < rate
                invariant
                    rate >= 2,
                    1 <= k <= rate,
                    base == i * rate,
                    (i + 1) * rate <= usize::MAX,
                    zero == T::spec_zero(),
                    out.len() == base + k,
                    forall|j: int| 0 <= j < base ==> out@[j] == (if j % rate as int == 0 { data@[j / rate as int] } else { zero }),
                    out@[base as int] == data@[i as int],
                    forall|j: int| base < j < base + k ==> out@[j] == zero,
                decreases rate - k,
            {
                out.push(zero);
                k = k + 1;
            }
            assert forall|j: int| 0 <= j < out.len() implies out@[j] == (if j % rate as int == 0 { data@[j / rate as int] } else { zero }) by {
                if j >= base {
                    let d = j - base;
                    assert(j == i * rate + d);
                    vstd::arithmetic::div_mod::lemma_fundamental_div_mod_converse(j, rate as int, i as int, d);
                }
            }
            i = i + 1;
            assert(out.len() == i * rate) by (nonlinear_arith)
                requires out.len() == base + rate, base == (i - 1) * rate;
        }
        assert(out@ =~= upsampled(data@, rate as nat, T::spec_zero()));
        out
    }
}

/// Decimating by a rate undoes upsampling by the same rate; and whenever
/// the upsampled stream fits in memory, decimating it may be asked for.
pub proof fn lemma_decimate_undoes_upsample<T>(data: Seq<T>, rate: nat, zero: T)
    ensures
        decimated(upsampled(data, rate, zero), rate) == data,
        data.len() * rate <= usize::MAX ==> decimation_fits(upsampled(data, rate, zero).len(), rate),
{
    if rate > 1 {
        let up = upsampled(data, rate, zero);
        let n = data.len();
        assert((n * rate + rate - 1) / rate as int == n) by (nonlinear_arith)
            requires rate > 1;
        assert(up.len() == n * rate);
        assert(((up.len() + rate - 1) / rate as int) * rate == n * rate) by (nonlinear_arith)
            requires rate > 1, up.len() == n * rate;
        let d = decimated(up, rate);
        assert forall|i: int| 0 <= i < n implies d[i] == data[i] by {
            lemma_mod_multiples_basic(i, rate as int);
            lemma_div_multiples_vanish(i, rate as int);
            assert(0 <= i * rate < n * rate) by (nonlinear_arith)
                requires 0 <= i < n, rate > 1;
        }
        assert(d =~= data);
    }
}

} // verus!
