//! Pseudo-random bit sequences from a Fibonacci linear-feedback shift
//! register (LFSR).
//!
//! The register shifts to the left. At each step the bit leaving at the top
//! is the output, and the new bottom bit is the parity of the register bits
//! selected by the polynomial mask. The register width is the width of the
//! integer type that holds it: `PrnGen::new(0xC0u8, 1)` is an 8-bit LFSR.

pub mod prn_node;

use vstd::prelude::*;
use vstd::arithmetic::div_mod::{lemma_div_denominator, lemma_mod_breakdown, lemma_mod_mod};
use vstd::arithmetic::power2::{lemma2_to64, lemma_pow2_pos, lemma_pow2_unfold, pow2};

verus! {

/// The number of bit positions below `n` that are set in both `s` and `m`:
/// the number of ones in `s & m` when both fit in `n` bits.
pub open spec fn common_ones(s: nat, m: nat, n: nat) -> nat
    decreases n,
{
    if n == 0 {
        0
    } else {
        (if s % 2 == 1 && m % 2 == 1 { 1nat } else { 0nat }) + common_ones(s / 2, m / 2, (n - 1) as nat)
    }
}

/// The feedback bit: the parity of the masked register bits.
pub open spec fn lfsr_feedback(s: nat, m: nat, width: nat) -> nat {
    common_ones(s, m, width) % 2
}

/// The bit that leaves the top of a register of `modulus` values.
pub open spec fn lfsr_output(s: nat, modulus: nat) -> nat {
    s / (modulus / 2)
}

/// The register after one step: shifted left by one, top bit dropped,
/// feedback bit shifted in at the bottom.
pub open spec fn lfsr_next(s: nat, m: nat, width: nat, modulus: nat) -> nat {
    (s % (modulus / 2)) * 2 + lfsr_feedback(s, m, width)
}

/// An unsigned integer type that can hold an LFSR register.
pub trait LfsrWord: Copy + Sized {
    /// The number of bits of the type.
    spec fn width() -> nat;

    /// The number of values of the type, `2^width`.
    spec fn modulus() -> nat;

    /// The value held, as a natural number.
    spec fn value(self) -> nat;

    /// The width and the number of values agree, and every value is in range.
    proof fn lemma_word(x: Self)
        ensures
            1 <= Self::width() <= 128,
            Self::modulus() == vstd::arithmetic::power2::pow2(Self::width()),
            Self::modulus() <= u128::MAX as nat + 1,
            x.value() < Self::modulus(),
    ;

    /// The number of bits of the type.
    fn bits() -> (r: u32)
        ensures
            r == Self::width(),
    ;

    /// The value of the top bit, `2^(width - 1)`.
    fn top_bit() -> (r: u128)
        ensures
            r * 2 == Self::modulus(),
    ;

    /// The value held, widened.
    fn to_u128(self) -> (r: u128)
        ensures
            r == self.value(),
    ;

    /// The value `v`, narrowed.
    fn from_u128(v: u128) -> (r: Self)
        requires
            v < Self::modulus(),
        ensures
            r.value() == v,
    ;
}

impl LfsrWord for u8 {
    open spec fn width() -> nat {
        8
    }

    open spec fn modulus() -> nat {
        0x100
    }

    open spec fn value(self) -> nat {
        self as nat
    }

    proof fn lemma_word(x: Self) {
        vstd::arithmetic::power2::lemma2_to64();
    }

    fn bits() -> (r: u32) {
        8
    }

    fn top_bit() -> (r: u128) {
        0x80
    }

    fn to_u128(self) -> (r: u128) {
        self as u128
    }

    fn from_u128(v: u128) -> (r: Self) {
        v as u8
    }
}

impl LfsrWord for u16 {
    open spec fn width() -> nat {
        16
    }

    open spec fn modulus() -> nat {
        0x1_0000
    }

    open spec fn value(self) -> nat {
        self as nat
    }

    proof fn lemma_word(x: Self) {
        vstd::arithmetic::power2::lemma2_to64();
    }

    fn bits() -> (r: u32) {
        16
    }

    fn top_bit() -> (r: u128) {
        0x8000
    }

    fn to_u128(self) -> (r: u128) {
        self as u128
    }

    fn from_u128(v: u128) -> (r: Self) {
        v as u16
    }
}

impl LfsrWord for u32 {
    open spec fn width() -> nat {
        32
    }

    open spec fn modulus() -> nat {
        0x1_0000_0000
    }

    open spec fn value(self) -> nat {
        self as nat
    }

    proof fn lemma_word(x: Self) {
        vstd::arithmetic::power2::lemma2_to64();
    }

    fn bits() -> (r: u32) {
        32
    }

    fn top_bit() -> (r: u128) {
        0x8000_0000
    }

    fn to_u128(self) -> (r: u128) {
        self as u128
    }

    fn from_u128(v: u128) -> (r: Self) {
        v as u32
    }
}

impl LfsrWord for u64 {
    open spec fn width() -> nat {
        64
    }

    open spec fn modulus() -> nat {
        0x1_0000_0000_0000_0000
    }

    open spec fn value(self) -> nat {
        self as nat
    }

    proof fn lemma_word(x: Self) {
        vstd::arithmetic::power2::lemma2_to64();
        vstd::arithmetic::power2::lemma2_to64_rest();
    }

    fn bits() -> (r: u32) {
        64
    }

    fn top_bit() -> (r: u128) {
        0x8000_0000_0000_0000
    }

    fn to_u128(self) -> (r: u128) {
        self as u128
    }

    fn from_u128(v: u128) -> (r: Self) {
        v as u64
    }
}

impl LfsrWord for u128 {
    open spec fn width() -> nat {
        128
    }

    open spec fn modulus() -> nat {
        u128::MAX as nat + 1
    }

    open spec fn value(self) -> nat {
        self as nat
    }

    proof fn lemma_word(x: Self) {
        vstd::arithmetic::power2::lemma2_to64();
        vstd::arithmetic::power2::lemma2_to64_rest();
        vstd::arithmetic::power2::lemma_pow2_adds(64, 64);
    }

    fn bits() -> (r: u32) {
        128
    }

    fn top_bit() -> (r: u128) {
        0x8000_0000_0000_0000_0000_0000_0000_0000
    }

    fn to_u128(self) -> (r: u128) {
        self as u128
    }

    fn from_u128(v: u128) -> (r: Self) {
        v as u128
    }
}

impl LfsrWord for usize {
    open spec fn width() -> nat {
        usize::BITS as nat
    }

    open spec fn modulus() -> nat {
        usize::MAX as nat + 1
    }

    open spec fn value(self) -> nat {
        self as nat
    }

    proof fn lemma_word(x: Self) {
        vstd::layout::unsigned_int_max_values();
    }

    fn bits() -> (r: u32) {
        usize::BITS
    }

    fn top_bit() -> (r: u128) {
        (usize::MAX as u128 + 1) / 2
    }

    fn to_u128(self) -> (r: u128) {
        self as u128
    }

    fn from_u128(v: u128) -> (r: Self) {
        v as usize
    }
}

/// One LFSR step on widened values: returns the output bit and the next
/// register value.
pub fn lfsr_step<T: LfsrWord>(state: T, poly_mask: T) -> (r: (u8, T))
    ensures
        r.0 as nat == lfsr_output(state.value(), T::modulus()),
        r.0 <= 1,
        r.1.value() == lfsr_next(state.value(), poly_mask.value(), T::width(), T::modulus()),
{
    proof {
        T::lemma_word(state);
        T::lemma_word(poly_mask);
    }
    let s = state.to_u128();
    let m = poly_mask.to_u128();
    let w = T::bits();
    let top = T::top_bit();
    let mut a = s;
    let mut b = m;
    let mut count: u32 = 0;
    let mut i: u32 = 0;
    while i < w
        invariant
            w == T::width(),
            w <= 128,
            0 <= i <= w,
            count <= i,
            common_ones(s as nat, m as nat, w as nat) == count + common_ones(a as nat, b as nat, (w - i) as nat),
        decreases w - i,
    {
        if a % 2 == 1 && b % 2 == 1 {
            count = count + 1;
        }
        a = a / 2;
        b = b / 2;
        i = i + 1;
    }
    let fb: u128 = (count % 2) as u128;
    let out = s / top;
    assert(out < 2) by (nonlinear_arith)
        requires out == s / top, s < top * 2, top > 0;
    let low = s % top;
    assert(low * 2 + fb < top * 2) by (nonlinear_arith)
        requires low < top, fb < 2;
    let next = low * 2 + fb;
    (out as u8, T::from_u128(next))
}

/// A pseudo-random bit generator built on an LFSR held in `T`.
pub struct PrnGen<T> {
    poly_mask: T,
    state: T,
}

impl<T: LfsrWord> PrnGen<T> {
    /// The polynomial mask: a one selects a register bit for the feedback.
    pub closed spec fn mask_value(&self) -> nat {
        self.poly_mask.value()
    }

    /// The current register contents.
    pub closed spec fn state_value(&self) -> nat {
        self.state.value()
    }

    /// Builds a generator with the given feedback mask and initial register.
    pub fn new(poly_mask: T, state: T) -> (r: PrnGen<T>)
        ensures
            r.mask_value() == poly_mask.value(),
            r.state_value() == state.value(),
    {
        PrnGen { poly_mask, state }
    }

    /// Steps the register once and returns the bit shifted out of its top.
    pub fn next_byte(&mut self) -> (r: u8)
        ensures
            r <= 1,
            r as nat == lfsr_output(old(self).state_value(), T::modulus()),
            final(self).mask_value() == old(self).mask_value(),
            final(self).state_value() == lfsr_next(
                old(self).state_value(),
                old(self).mask_value(),
                T::width(),
                T::modulus(),
            ),
    {
        let (out, next) = lfsr_step(self.state, self.poly_mask);
        self.state = next;
        out
    }
}

/// Bit `j` of `x`, counting from the least significant bit.
pub open spec fn bit(x: nat, j: nat) -> nat
    decreases j,
{
    if j == 0 {
        x % 2
    } else {
        bit(x / 2, (j - 1) as nat)
    }
}

/// The register after `k` steps from `s0`.
pub open spec fn lfsr_state(s0: nat, m: nat, width: nat, modulus: nat, k: nat) -> nat
    decreases k,
{
    if k == 0 {
        s0
    } else {
        lfsr_next(lfsr_state(s0, m, width, modulus, (k - 1) as nat), m, width, modulus)
    }
}

proof fn lemma_bit_of_mod(x: nat, n: nat, i: nat)
    requires
        i < n,
    ensures
        bit(x % pow2(n), i) == bit(x, i),
    decreases i,
{
    lemma_pow2_unfold(n);
    lemma_pow2_pos((n - 1) as nat);
    let q = pow2((n - 1) as nat);
    lemma_mod_breakdown(x as int, 2, q as int);
    if i == 0 {
        lemma_mod_mod(x as int, 2, q as int);
    } else {
        assert((x % pow2(n)) / 2 == (x / 2) % q);
        lemma_bit_of_mod(x / 2, (n - 1) as nat, (i - 1) as nat);
    }
}

proof fn lemma_top_bit(x: nat, n: nat)
    requires
        x < 2 * pow2(n),
    ensures
        bit(x, n) == x / pow2(n),
    decreases n,
{
    lemma_pow2_pos(n);
    if n == 0 {
        lemma2_to64();
        assert(pow2(0) == 1);
        assert(x / 1 == x);
        assert(bit(x, 0) == x % 2);
    } else {
        lemma_pow2_unfold(n);
        lemma_pow2_pos((n - 1) as nat);
        let q = pow2((n - 1) as nat);
        assert(x / 2 < 2 * q) by (nonlinear_arith)
            requires x < 4 * q, q > 0;
        lemma_top_bit(x / 2, (n - 1) as nat);
        lemma_div_denominator(x as int, 2, q as int);
        assert(bit(x, n) == bit(x / 2, (n - 1) as nat));
        assert(bit(x, n) == (x / 2) / q);
        assert(x / (2 * q) == x / pow2(n));
    }
}

proof fn lemma_next_bits(x: nat, m: nat, width: nat, modulus: nat, j: nat)
    requires
        1 <= width,
        modulus == pow2(width),
        x < modulus,
        j < width,
    ensures
        lfsr_next(x, m, width, modulus) < modulus,
        j == 0 ==> bit(lfsr_next(x, m, width, modulus), j) == lfsr_feedback(x, m, width),
        j > 0 ==> bit(lfsr_next(x, m, width, modulus), j) == bit(x, (j - 1) as nat),
{
    lemma_pow2_unfold(width);
    lemma_pow2_pos((width - 1) as nat);
    let top = pow2((width - 1) as nat);
    let y = lfsr_next(x, m, width, modulus);
    let f = lfsr_feedback(x, m, width);
    assert(modulus / 2 == top);
    assert(x % top < top);
    assert(y == (x % top) * 2 + f);
    assert(y / 2 == x % top);
    assert(y % 2 == f);
    if j > 0 {
        lemma_bit_of_mod(x, (width - 1) as nat, (j - 1) as nat);
    }
}

proof fn lemma_state_in_range(s0: nat, m: nat, width: nat, modulus: nat, k: nat)
    requires
        1 <= width,
        modulus == pow2(width),
        s0 < modulus,
    ensures
        lfsr_state(s0, m, width, modulus, k) < modulus,
    decreases k,
{
    if k > 0 {
        lemma_state_in_range(s0, m, width, modulus, (k - 1) as nat);
        lemma_next_bits(lfsr_state(s0, m, width, modulus, (k - 1) as nat), m, width, modulus, 0);
    }
}

proof fn lemma_feedback_travels(s0: nat, m: nat, width: nat, modulus: nat, k: nat, j: nat)
    requires
        1 <= width,
        modulus == pow2(width),
        s0 < modulus,
        j < width,
    ensures
        bit(lfsr_state(s0, m, width, modulus, k + 1 + j), j) == lfsr_feedback(
            lfsr_state(s0, m, width, modulus, k),
            m,
            width,
        ),
    decreases j,
{
    let prev = lfsr_state(s0, m, width, modulus, k + j);
    lemma_state_in_range(s0, m, width, modulus, k + j);
    lemma_next_bits(prev, m, width, modulus, j);
    assert(lfsr_state(s0, m, width, modulus, k + 1 + j) == lfsr_next(prev, m, width, modulus));
    if j > 0 {
        lemma_feedback_travels(s0, m, width, modulus, k, (j - 1) as nat);
        assert(k + 1 + (j - 1) == k + j);
    }
}

/// The register is a delay line: the feedback bit computed at step `k`
/// leaves the top of the register as the output of step `k + width`.
pub proof fn lemma_output_is_delayed_feedback(s0: nat, m: nat, width: nat, modulus: nat, k: nat)
    requires
        1 <= width,
        modulus == pow2(width),
        s0 < modulus,
    ensures
        lfsr_output(lfsr_state(s0, m, width, modulus, k + width), modulus) == lfsr_feedback(
            lfsr_state(s0, m, width, modulus, k),
            m,
            width,
        ),
{
    let j = (width - 1) as nat;
    lemma_feedback_travels(s0, m, width, modulus, k, j);
    assert(k + 1 + j == k + width);
    let s = lfsr_state(s0, m, width, modulus, k + width);
    lemma_state_in_range(s0, m, width, modulus, k + width);
    lemma_pow2_unfold(width);
    lemma_top_bit(s, j);
}

/// Every register value stays below `modulus`, so every output is a bit.
pub proof fn lemma_outputs_are_bits(s0: nat, m: nat, width: nat, modulus: nat, k: nat)
    requires
        1 <= width,
        modulus == pow2(width),
        s0 < modulus,
    ensures
        lfsr_state(s0, m, width, modulus, k) < modulus,
        lfsr_output(lfsr_state(s0, m, width, modulus, k), modulus) <= 1,
{
    lemma_state_in_range(s0, m, width, modulus, k);
    lemma_pow2_unfold(width);
    lemma_pow2_pos((width - 1) as nat);
    let s = lfsr_state(s0, m, width, modulus, k);
    let top = pow2((width - 1) as nat);
    assert(modulus / 2 == top);
    assert(s / top < 2) by (nonlinear_arith)
        requires s < 2 * top, top > 0;
}

/// `x` with bit `j` inverted.
pub open spec fn flip_bit(x: nat, j: nat) -> nat {
    if bit(x, j) == 1 {
        (x - pow2(j)) as nat
    } else {
        x + pow2(j)
    }
}

proof fn lemma_bit_is_binary(x: nat, j: nat)
    ensures
        bit(x, j) <= 1,
        bit(x, j) == 1 ==> x >= pow2(j),
    decreases j,
{
    if j == 0 {
        lemma2_to64();
    } else {
        lemma_bit_is_binary(x / 2, (j - 1) as nat);
        lemma_pow2_unfold(j);
    }
}

proof fn lemma_common_ones_flip(s: nat, m: nat, n: nat, j: nat)
    requires
        j < n,
    ensures
        common_ones(flip_bit(s, j), m, n) == common_ones(s, m, n) + (if bit(m, j) == 1 {
            if bit(s, j) == 1 {
                -1int
            } else {
                1int
            }
        } else {
            0int
        }),
    decreases j,
{
    lemma_bit_is_binary(s, j);
    lemma_bit_is_binary(m, j);
    let t = flip_bit(s, j);
    if j == 0 {
        lemma2_to64();
        assert(pow2(0) == 1);
        assert(t % 2 == 1 - s % 2);
        assert(t / 2 == s / 2);
    } else {
        lemma_pow2_unfold(j);
        let p = pow2((j - 1) as nat);
        assert(pow2(j) == 2 * p);
        assert(bit(s, j) == bit(s / 2, (j - 1) as nat));
        assert(bit(m, j) == bit(m / 2, (j - 1) as nat));
        lemma_bit_is_binary(s / 2, (j - 1) as nat);
        if bit(s, j) == 1 {
            assert(t == s - 2 * p);
            assert(t % 2 == s % 2 && t / 2 == s / 2 - p) by (nonlinear_arith)
                requires t == s - 2 * p, s >= 2 * p;
        } else {
            assert(t == s + 2 * p);
            assert(t % 2 == s % 2 && t / 2 == s / 2 + p) by (nonlinear_arith)
                requires t == s + 2 * p;
        }
        assert(t / 2 == flip_bit(s / 2, (j - 1) as nat));
        lemma_common_ones_flip(s / 2, m / 2, (n - 1) as nat, (j - 1) as nat);
    }
}

/// The feedback bit is the parity of the register bits selected by the
/// mask, over the whole register: it is 0 for an empty register, inverting
/// any register bit that the mask selects inverts it, and inverting any
/// other register bit leaves it as it is.
pub proof fn lemma_feedback_is_masked_parity(s: nat, m: nat, width: nat, j: nat)
    requires
        j < width,
    ensures
        lfsr_feedback(0, m, width) == 0,
        lfsr_feedback(s, m, width) <= 1,
        lfsr_feedback(flip_bit(s, j), m, width) == (if bit(m, j) == 1 {
            1 - lfsr_feedback(s, m, width)
        } else {
            lfsr_feedback(s, m, width) as int
        }),
{
    lemma_common_ones_flip(s, m, width, j);
    lemma_common_ones_zero(m, width);
    let c = common_ones(s, m, width);
    let c2 = common_ones(flip_bit(s, j), m, width);
    if bit(m, j) == 1 {
        assert(c2 % 2 == 1 - c % 2) by (nonlinear_arith)
            requires c2 == c + 1 || c2 == c - 1, c >= 0, c2 >= 0;
    }
}

proof fn lemma_common_ones_zero(m: nat, n: nat)
    ensures
        common_ones(0, m, n) == 0,
    decreases n,
{
    if n > 0 {
        lemma_common_ones_zero(m / 2, (n - 1) as nat);
    }
}

} // verus!
