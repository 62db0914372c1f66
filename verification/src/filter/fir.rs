//! One step and batch forms of a complex FIR filter.
//!
//! The filter state holds the most recent inputs, newest first. Feeding a
//! sample shifts it in at the front and drops the oldest one; the output is
//! the sum over `k` of `taps[k] * state[k]`, taken over the shorter of the
//! two sequences. The sum is exact and then wrapped to the width of the
//! sample type, which is the value the type's two's-complement arithmetic
//! gives.

use vstd::prelude::*;
use crate::complex::{Complex, Zero};

verus! {

/// An integer type of filter samples. Filter sums are formed exactly and
/// then wrapped to the type's width, which is the value that the type's
/// two's-complement arithmetic gives.
pub trait FirSample: Copy + Zero {
    /// The value held.
    spec fn value(self) -> int;

    /// The value of the type that `x` wraps to.
    spec fn wrap(x: int) -> Self;

    /// A bound on the magnitude of every value of the type.
    spec fn magnitude() -> int;

    /// The value one.
    spec fn spec_one() -> Self;

    /// Every value is within the bound, the bound leaves room for exact
    /// sums of `usize::MAX` products in `i128`, zero and one have their
    /// values, and wrapping a value gives it back.
    proof fn lemma_sample(x: Self)
        ensures
            0 <= Self::magnitude(),
            -Self::magnitude() <= x.value() <= Self::magnitude(),
            2 * (Self::magnitude() * Self::magnitude()) * usize::MAX <= i128::MAX,
            Self::spec_zero().value() == 0,
            Self::spec_one().value() == 1,
            Self::wrap(x.value()) == x,
    ;

    /// The value one.
    fn one() -> (r: Self)
        ensures
            r == Self::spec_one(),
    ;

    /// The value held, widened.
    fn widen(self) -> (r: i128)
        ensures
            r == self.value(),
    ;

    /// `v` wrapped to the type.
    fn narrow(v: i128) -> (r: Self)
        ensures
            r == Self::wrap(v as int),
    ;
}

proof fn lemma_usize_max()
    ensures
        usize::MAX <= 0xffff_ffff_ffff_ffff,
{
}

impl FirSample for i8 {
    open spec fn value(self) -> int {
        self as int
    }

    open spec fn wrap(x: int) -> Self {
        x as i8
    }

    open spec fn magnitude() -> int {
        0x80
    }

    open spec fn spec_one() -> Self {
        1
    }

    proof fn lemma_sample(x: Self) {
        lemma_usize_max();
        assert(2 * (0x80 * 0x80) * usize::MAX <= i128::MAX) by (nonlinear_arith)
            requires usize::MAX <= 0xffff_ffff_ffff_ffff;
    }

    fn one() -> (r: Self) {
        1
    }

    fn widen(self) -> (r: i128) {
        self as i128
    }

    fn narrow(v: i128) -> (r: Self) {
        v as i8
    }
}

impl FirSample for i16 {
    open spec fn value(self) -> int {
        self as int
    }

    open spec fn wrap(x: int) -> Self {
        x as i16
    }

    open spec fn magnitude() -> int {
        0x8000
    }

    open spec fn spec_one() -> Self {
        1
    }

    proof fn lemma_sample(x: Self) {
        lemma_usize_max();
        assert(2 * (0x8000 * 0x8000) * usize::MAX <= i128::MAX) by (nonlinear_arith)
            requires usize::MAX <= 0xffff_ffff_ffff_ffff;
    }

    fn one() -> (r: Self) {
        1
    }

    fn widen(self) -> (r: i128) {
        self as i128
    }

    fn narrow(v: i128) -> (r: Self) {
        v as i16
    }
}

impl FirSample for i32 {
    open spec fn value(self) -> int {
        self as int
    }

    open spec fn wrap(x: int) -> Self {
        x as i32
    }

    open spec fn magnitude() -> int {
        0x8000_0000
    }

    open spec fn spec_one() -> Self {
        1
    }

    proof fn lemma_sample(x: Self) {
        lemma_usize_max();
        assert(2 * (0x8000_0000 * 0x8000_0000) * usize::MAX <= i128::MAX) by (nonlinear_arith)
            requires usize::MAX <= 0xffff_ffff_ffff_ffff;
    }

    fn one() -> (r: Self) {
        1
    }

    fn widen(self) -> (r: i128) {
        self as i128
    }

    fn narrow(v: i128) -> (r: Self) {
        v as i32
    }
}

impl FirSample for u8 {
    open spec fn value(self) -> int {
        self as int
    }

    open spec fn wrap(x: int) -> Self {
        x as u8
    }

    open spec fn magnitude() -> int {
        0xff
    }

    open spec fn spec_one() -> Self {
        1
    }

    proof fn lemma_sample(x: Self) {
        lemma_usize_max();
        assert(2 * (0xff * 0xff) * usize::MAX <= i128::MAX) by (nonlinear_arith)
            requires usize::MAX <= 0xffff_ffff_ffff_ffff;
    }

    fn one() -> (r: Self) {
        1
    }

    fn widen(self) -> (r: i128) {
        self as i128
    }

    fn narrow(v: i128) -> (r: Self) {
        v as u8
    }
}

impl FirSample for u16 {
    open spec fn value(self) -> int {
        self as int
    }

    open spec fn wrap(x: int) -> Self {
        x as u16
    }

    open spec fn magnitude() -> int {
        0xffff
    }

    open spec fn spec_one() -> Self {
        1
    }

    proof fn lemma_sample(x: Self) {
        lemma_usize_max();
        assert(2 * (0xffff * 0xffff) * usize::MAX <= i128::MAX) by (nonlinear_arith)
            requires usize::MAX <= 0xffff_ffff_ffff_ffff;
    }

    fn one() -> (r: Self) {
        1
    }

    fn widen(self) -> (r: i128) {
        self as i128
    }

    fn narrow(v: i128) -> (r: Self) {
        v as u16
    }
}

/// The real part of the product `a * b`.
pub open spec fn cmul_re<T: FirSample>(a: Complex<T>, b: Complex<T>) -> int {
    a.re.value() * b.re.value() - a.im.value() * b.im.value()
}

/// The imaginary part of the product `a * b`.
pub open spec fn cmul_im<T: FirSample>(a: Complex<T>, b: Complex<T>) -> int {
    a.re.value() * b.im.value() + a.im.value() * b.re.value()
}

/// The real part of `sum_{k < n} taps[k] * st[k]`.
pub open spec fn dot_re<T: FirSample>(taps: Seq<Complex<T>>, st: Seq<Complex<T>>, n: int) -> int
    decreases n,
{
    if n <= 0 {
        0
    } else {
        dot_re(taps, st, n - 1) + cmul_re(taps[n - 1], st[n - 1])
    }
}

/// The imaginary part of `sum_{k < n} taps[k] * st[k]`.
pub open spec fn dot_im<T: FirSample>(taps: Seq<Complex<T>>, st: Seq<Complex<T>>, n: int) -> int
    decreases n,
{
    if n <= 0 {
        0
    } else {
        dot_im(taps, st, n - 1) + cmul_im(taps[n - 1], st[n - 1])
    }
}

/// The number of terms in the filter sum.
pub open spec fn terms<T>(taps: Seq<Complex<T>>, st: Seq<Complex<T>>) -> int {
    if taps.len() <= st.len() {
        taps.len() as int
    } else {
        st.len() as int
    }
}

/// The filter output for a given state: the tap-weighted sum, wrapped to
/// the sample type.
pub open spec fn fir_output<T: FirSample>(taps: Seq<Complex<T>>, st: Seq<Complex<T>>) -> Complex<T> {
    Complex {
        re: T::wrap(dot_re(taps, st, terms(taps, st))),
        im: T::wrap(dot_im(taps, st, terms(taps, st))),
    }
}

/// The state after shifting `x` in: `x` first, the oldest sample dropped.
pub open spec fn shift_in<T>(st: Seq<Complex<T>>, x: Complex<T>) -> Seq<Complex<T>> {
    seq![x] + st.drop_last()
}

/// The state after shifting in every sample of `xs`, in order.
pub open spec fn shift_all<T>(st: Seq<Complex<T>>, xs: Seq<Complex<T>>) -> Seq<Complex<T>>
    decreases xs.len(),
{
    if xs.len() == 0 {
        st
    } else {
        shift_in(shift_all(st, xs.drop_last()), xs.last())
    }
}

/// The outputs of feeding `xs` one by one to a filter in state `st`.
pub open spec fn batch_output<T: FirSample>(
    taps: Seq<Complex<T>>,
    st: Seq<Complex<T>>,
    xs: Seq<Complex<T>>,
) -> Seq<Complex<T>> {
    Seq::new(xs.len(), |i: int| fir_output(taps, shift_all(st, xs.take(i + 1))))
}

proof fn lemma_term_bounds<T: FirSample>(a: Complex<T>, b: Complex<T>)
    ensures
        -(2 * (T::magnitude() * T::magnitude())) <= cmul_re(a, b) <= 2 * (T::magnitude() * T::magnitude()),
        -(2 * (T::magnitude() * T::magnitude())) <= cmul_im(a, b) <= 2 * (T::magnitude() * T::magnitude()),
        -(T::magnitude() * T::magnitude()) <= a.re.value() * b.re.value() <= T::magnitude() * T::magnitude(),
        -(T::magnitude() * T::magnitude()) <= a.im.value() * b.im.value() <= T::magnitude() * T::magnitude(),
        -(T::magnitude() * T::magnitude()) <= a.re.value() * b.im.value() <= T::magnitude() * T::magnitude(),
        -(T::magnitude() * T::magnitude()) <= a.im.value() * b.re.value() <= T::magnitude() * T::magnitude(),
{
    T::lemma_sample(a.re);
    T::lemma_sample(a.im);
    T::lemma_sample(b.re);
    T::lemma_sample(b.im);
    let m = T::magnitude();
    assert forall|x: int, y: int| -m <= x <= m && -m <= y <= m implies -(m * m) <= #[trigger] (x * y) <= m * m by {
        assert(-(m * m) <= x * y <= m * m) by (nonlinear_arith)
            requires -m <= x <= m, -m <= y <= m, 0 <= m;
    }
}

/// Shifts `x` into `state` in place.
fn shift_into<T: FirSample>(x: Complex<T>, state: &mut Vec<Complex<T>>)
    requires
        old(state).len() > 0,
    ensures
        final(state)@ == shift_in(old(state)@, x),
{
    let n = state.len();
    let mut prev = x;
    let mut i: usize = 0;
    while i < n
        invariant
            n == state.len(),
            n == old(state).len(),
            0 <= i <= n,
            i == 0 ==> prev == x,
            i > 0 ==> prev == old(state)@[i - 1],
            forall|j: int| 0 <= j < i ==> state@[j] == (if j == 0 { x } else { old(state)@[j - 1] }),
            forall|j: int| i <= j < n ==> state@[j] == old(state)@[j],
        decreases n - i,
    {
        let tmp = state[i];
        state.set(i, prev);
        prev = tmp;
        i = i + 1;
    }
    assert(state@ =~= shift_in(old(state)@, x));
}

/// The tap-weighted sum of `taps` and `state`, wrapped to the sample type.
fn weighted_sum<T: FirSample>(taps: &[Complex<T>], state: &Vec<Complex<T>>) -> (r: Complex<T>)
    ensures
        r == fir_output(taps@, state@),
{
    let m = if taps.len() <= state.len() { taps.len() } else { state.len() };
    let ghost b: int = 2 * (T::magnitude() * T::magnitude());
    proof {
        T::lemma_sample(T::spec_zero());
    }
    let mut acc_re: i128 = 0;
    let mut acc_im: i128 = 0;
    let mut k: usize = 0;
    while k < m
        invariant
            m == terms(taps@, state@),
            0 <= k <= m,
            m <= taps.len(),
            m <= state.len(),
            b == 2 * (T::magnitude() * T::magnitude()),
            0 <= b,
            b * usize::MAX <= i128::MAX,
            acc_re == dot_re(taps@, state@, k as int),
            acc_im == dot_im(taps@, state@, k as int),
            -(k as int) * b <= acc_re <= (k as int) * b,
            -(k as int) * b <= acc_im <= (k as int) * b,
        decreases m - k,
    {
        let t = taps[k];
        let s = state[k];
        proof {
            lemma_term_bounds(t, s);
            assert((k as int + 1) * b <= i128::MAX) by (nonlinear_arith)
                requires k < m, m <= usize::MAX, b * usize::MAX <= i128::MAX, 0 <= b;
            assert((k as int) * b + b == (k as int + 1) * b) by (nonlinear_arith);
            assert(-(k as int) * b - b == -(k as int + 1) * b) by (nonlinear_arith);
            assert(-(k as int + 1) * b >= i128::MIN) by (nonlinear_arith)
                requires (k as int + 1) * b <= i128::MAX;
            assert(-(k as int + 1) * b <= acc_re + cmul_re(t, s) <= (k as int + 1) * b);
            assert(-(k as int + 1) * b <= acc_im + cmul_im(t, s) <= (k as int + 1) * b);
        }
        let pr: i128 = t.re.widen() * s.re.widen() - t.im.widen() * s.im.widen();
        let pi: i128 = t.re.widen() * s.im.widen() + t.im.widen() * s.re.widen();
        assert(pr == cmul_re(t, s) && pi == cmul_im(t, s));
        acc_re = acc_re + pr;
        acc_im = acc_im + pi;
        k = k + 1;
    }
    Complex { re: T::narrow(acc_re), im: T::narrow(acc_im) }
}

/// Feeds one sample to the filter: shifts `input` into `state` and returns
/// the tap-weighted sum of the new state.
pub fn fir<T: FirSample>(input: &Complex<T>, taps: &[Complex<T>], state: &mut Vec<Complex<T>>) -> (r: Complex<T>)
    requires
        old(state).len() > 0,
    ensures
        final(state)@ == shift_in(old(state)@, *input),
        r == fir_output(taps@, final(state)@),
{
    shift_into(*input, state);
    weighted_sum(taps, state)
}

/// Feeds a batch of samples to the filter, one after another, and returns
/// one output per input sample.
pub fn batch_fir<T: FirSample>(
    input: &[Complex<T>],
    taps: &[Complex<T>],
    state: &mut Vec<Complex<T>>,
) -> (r: Vec<Complex<T>>)
    requires
        input.len() > 0 ==> old(state).len() > 0,
    ensures
        final(state)@ == shift_all(old(state)@, input@),
        r@ == batch_output(taps@, old(state)@, input@),
{
    let mut output: Vec<Complex<T>> = Vec::new();
    let mut i: usize = 0;
    while i < input.len()
        invariant
            0 <= i <= input.len(),
            state.len() == old(state).len(),
            input.len() > 0 ==> state.len() > 0,
            state@ == shift_all(old(state)@, input@.take(i as int)),
            output.len() == i,
            forall|j: int| 0 <= j < i ==> output@[j] == fir_output(taps@, shift_all(old(state)@, input@.take(j + 1))),
        decreases input.len() - i,
    {
        let sample = input[i];
        proof {
            assert(input@.take(i + 1).drop_last() =~= input@.take(i as int));
        }
        let y = fir(&sample, taps, state);
        output.push(y);
        i = i + 1;
    }
    proof {
        assert(input@.take(input.len() as int) =~= input@);
    }
    assert(output@ =~= batch_output(taps@, old(state)@, input@));
    output
}


/// The zero sample.
pub open spec fn zero_sample<T: FirSample>() -> Complex<T> {
    Complex { re: T::spec_zero(), im: T::spec_zero() }
}

/// Sample `i` of the stream `xs`, taken as zero outside it.
pub open spec fn sample_at<T: FirSample>(xs: Seq<Complex<T>>, i: int) -> Complex<T> {
    if 0 <= i < xs.len() {
        xs[i]
    } else {
        zero_sample()
    }
}

/// The real part of the convolution `sum_{k < m} taps[k] * xs[n - k]`.
pub open spec fn conv_re<T: FirSample>(taps: Seq<Complex<T>>, xs: Seq<Complex<T>>, n: int, m: int) -> int
    decreases m,
{
    if m <= 0 {
        0
    } else {
        conv_re(taps, xs, n, m - 1) + cmul_re(taps[m - 1], sample_at(xs, n - (m - 1)))
    }
}

/// The imaginary part of the convolution `sum_{k < m} taps[k] * xs[n - k]`.
pub open spec fn conv_im<T: FirSample>(taps: Seq<Complex<T>>, xs: Seq<Complex<T>>, n: int, m: int) -> int
    decreases m,
{
    if m <= 0 {
        0
    } else {
        conv_im(taps, xs, n, m - 1) + cmul_im(taps[m - 1], sample_at(xs, n - (m - 1)))
    }
}

/// Whether every sample of the state is zero.
pub open spec fn all_zero<T: FirSample>(st: Seq<Complex<T>>) -> bool {
    forall|k: int| 0 <= k < st.len() ==> st[k] == zero_sample::<T>()
}

/// After shifting in `xs`, the state holds the newest samples first and then
/// what remains of the old state: slot `j` is `xs[len - 1 - j]` while that
/// exists, and otherwise the old slot `j - len`. The state keeps its length.
pub proof fn lemma_shift_all_slots<T>(st: Seq<Complex<T>>, xs: Seq<Complex<T>>)
    requires
        st.len() > 0,
    ensures
        shift_all(st, xs).len() == st.len(),
        forall|j: int|
            0 <= j < st.len() ==> #[trigger] shift_all(st, xs)[j] == (if j < xs.len() {
                xs[xs.len() - 1 - j]
            } else {
                st[j - xs.len()]
            }),
    decreases xs.len(),
{
    if xs.len() > 0 {
        let xs1 = xs.drop_last();
        lemma_shift_all_slots(st, xs1);
        let prev = shift_all(st, xs1);
        assert forall|j: int| 0 <= j < st.len() implies #[trigger] shift_all(st, xs)[j] == (if j < xs.len() {
            xs[xs.len() - 1 - j]
        } else {
            st[j - xs.len()]
        }) by {
            if j > 0 {
                assert(shift_all(st, xs)[j] == prev[j - 1]);
                if j - 1 < xs1.len() {
                    assert(xs1[xs1.len() - 1 - (j - 1)] == xs[xs.len() - 1 - j]);
                }
            }
        }
    }
}

proof fn lemma_dot_is_conv<T: FirSample>(
    taps: Seq<Complex<T>>,
    st: Seq<Complex<T>>,
    xs: Seq<Complex<T>>,
    n: int,
    m: int,
)
    requires
        0 <= m <= taps.len(),
        m <= st.len(),
        forall|k: int| 0 <= k < m ==> #[trigger] st[k] == sample_at(xs, n - k),
    ensures
        dot_re(taps, st, m) == conv_re(taps, xs, n, m),
        dot_im(taps, st, m) == conv_im(taps, xs, n, m),
    decreases m,
{
    if m > 0 {
        lemma_dot_is_conv(taps, st, xs, n, m - 1);
        assert(st[m - 1] == sample_at(xs, n - (m - 1)));
    }
}

/// A filter started from an all-zero state computes the convolution of its
/// input with its taps: output `n` is `sum_k taps[k] * xs[n - k]` over the
/// taps that the state covers, with samples before the stream taken as zero.
pub proof fn lemma_batch_fir_is_convolution<T: FirSample>(
    taps: Seq<Complex<T>>,
    st: Seq<Complex<T>>,
    xs: Seq<Complex<T>>,
    n: int,
)
    requires
        st.len() > 0,
        all_zero(st),
        0 <= n < xs.len(),
    ensures
        batch_output(taps, st, xs)[n] == (Complex {
            re: T::wrap(conv_re(taps, xs, n, terms(taps, st))),
            im: T::wrap(conv_im(taps, xs, n, terms(taps, st))),
        }),
{
    let pre = xs.take(n + 1);
    lemma_shift_all_slots(st, pre);
    let s2 = shift_all(st, pre);
    assert forall|k: int| 0 <= k < terms(taps, st) implies #[trigger] s2[k] == sample_at(xs, n - k) by {
        if k < pre.len() {
            assert(pre[pre.len() - 1 - k] == xs[n - k]);
        } else {
            assert(st[k - pre.len()] == zero_sample::<T>());
        }
    }
    assert(terms(taps, s2) == terms(taps, st));
    lemma_dot_is_conv(taps, s2, xs, n, terms(taps, st));
}

/// Shifting in `a` and then `b` leaves the state that shifting in `a + b` does.
pub proof fn lemma_shift_all_concat<T>(st: Seq<Complex<T>>, a: Seq<Complex<T>>, b: Seq<Complex<T>>)
    ensures
        shift_all(st, a + b) == shift_all(shift_all(st, a), b),
    decreases b.len(),
{
    if b.len() == 0 {
        assert(a + b =~= a);
    } else {
        lemma_shift_all_concat(st, a, b.drop_last());
        assert((a + b).drop_last() =~= a + b.drop_last());
        assert((a + b).last() == b.last());
    }
}

/// Filtering a stream in two batches gives the same outputs, and the same
/// final state, as filtering it in one.
pub proof fn lemma_batch_fir_split<T: FirSample>(
    taps: Seq<Complex<T>>,
    st: Seq<Complex<T>>,
    a: Seq<Complex<T>>,
    b: Seq<Complex<T>>,
)
    ensures
        batch_output(taps, st, a + b) == batch_output(taps, st, a) + batch_output(taps, shift_all(st, a), b),
        shift_all(st, a + b) == shift_all(shift_all(st, a), b),
{
    lemma_shift_all_concat(st, a, b);
    let lhs = batch_output(taps, st, a + b);
    let rhs = batch_output(taps, st, a) + batch_output(taps, shift_all(st, a), b);
    assert forall|i: int| 0 <= i < lhs.len() implies lhs[i] == rhs[i] by {
        if i < a.len() {
            assert((a + b).take(i + 1) =~= a.take(i + 1));
        } else {
            let j = i - a.len();
            assert((a + b).take(i + 1) =~= a + b.take(j + 1));
            lemma_shift_all_concat(st, a, b.take(j + 1));
        }
    }
    assert(lhs =~= rhs);
}

/// The filter sum is a sum of complex products: the sum over no terms is
/// zero, each further term adds `taps[n] * st[n]` with
/// `(a + bi)(c + di) = (ac - bd) + (ad + bc)i`, and a filter with one tap
/// and one state sample outputs their complex product, wrapped.
pub proof fn lemma_filter_sum_is_complex_product<T: FirSample>(
    taps: Seq<Complex<T>>,
    st: Seq<Complex<T>>,
    n: int,
)
    requires
        0 <= n,
    ensures
        dot_re(taps, st, 0) == 0,
        dot_im(taps, st, 0) == 0,
        dot_re(taps, st, n + 1) == dot_re(taps, st, n) + taps[n].re.value() * st[n].re.value() - taps[n].im.value()
            * st[n].im.value(),
        dot_im(taps, st, n + 1) == dot_im(taps, st, n) + taps[n].re.value() * st[n].im.value() + taps[n].im.value()
            * st[n].re.value(),
        taps.len() == 1 && st.len() == 1 ==> fir_output(taps, st) == (Complex {
            re: T::wrap(taps[0].re.value() * st[0].re.value() - taps[0].im.value() * st[0].im.value()),
            im: T::wrap(taps[0].re.value() * st[0].im.value() + taps[0].im.value() * st[0].re.value()),
        }),
{
    if taps.len() == 1 && st.len() == 1 {
        assert(dot_re(taps, st, 1) == dot_re(taps, st, 0) + cmul_re(taps[0], st[0]));
        assert(dot_im(taps, st, 1) == dot_im(taps, st, 0) + cmul_im(taps[0], st[0]));
    }
}

} // verus!
