//! BPSK and QPSK mapping of bits to complex 16-bit symbols.
//!
//! A byte is sent least significant bits first: BPSK takes one bit per
//! symbol, QPSK two.

use vstd::prelude::*;
use crate::complex::Complex;

verus! {

/// The BPSK symbol of a bit: `+1` for 0, `-1` for 1.
pub open spec fn bpsk_symbol(bit: u8) -> Complex<i16> {
    if bit == 0 {
        Complex { re: 1, im: 0 }
    } else {
        Complex { re: -1i16, im: 0 }
    }
}

/// The QPSK symbol of two bits: the low bit picks the sign of the real
/// part, the high bit the sign of the imaginary part (0 is `+1`, 1 is `-1`).
pub open spec fn qpsk_symbol(bits: u8) -> Complex<i16> {
    Complex {
        re: if bits & 1 == 0 { 1i16 } else { -1i16 },
        im: if bits & 2 == 0 { 1i16 } else { -1i16 },
    }
}

/// Bit `i` of `byte`.
pub open spec fn byte_bit(byte: u8, i: int) -> u8 {
    (byte >> (i as u8)) & 1
}

/// Bit pair `k` of `byte`: bits `2k` and `2k + 1`.
pub open spec fn byte_pair(byte: u8, k: int) -> u8 {
    (byte >> ((2 * k) as u8)) & 3
}

/// The eight BPSK symbols of a byte, least significant bit first.
pub open spec fn bpsk_byte_symbols(byte: u8) -> Seq<Complex<i16>> {
    Seq::new(8, |i: int| bpsk_symbol(byte_bit(byte, i)))
}

/// The four QPSK symbols of a byte, least significant bit pair first.
pub open spec fn qpsk_byte_symbols(byte: u8) -> Seq<Complex<i16>> {
    Seq::new(4, |k: int| qpsk_symbol(byte_pair(byte, k)))
}

/// Maps a bit to its BPSK symbol; `None` when `bit` is neither 0 nor 1.
pub fn bpsk_bit_mod(bit: u8) -> (r: Option<Complex<i16>>)
    ensures
        bit <= 1 ==> r == Some(bpsk_symbol(bit)),
        bit > 1 ==> r is None,
{
    if bit == 0 {
        Some(Complex::new(1, 0))
    } else if bit == 1 {
        Some(Complex::new(-1, 0))
    } else {
        None
    }
}

/// Maps a byte to eight BPSK symbols, least significant bit first.
pub fn bpsk_byte_mod(byte: u8) -> (r: Vec<Complex<i16>>)
    ensures
        r@ == bpsk_byte_symbols(byte),
{
    let mut out: Vec<Complex<i16>> = Vec::new();
    let mut i: u8 = 0;
    while i < 8
        invariant
            0 <= i <= 8,
            out.len() == i,
            forall|j: int| 0 <= j < i ==> out@[j] == bpsk_symbol(byte_bit(byte, j)),
        decreases 8 - i,
    {
        let b = (byte >> i) & 1;
        assert(b <= 1) by (bit_vector)
            requires b == (byte >> i) & 1;
        let sym = bpsk_bit_mod(b).unwrap();
        out.push(sym);
        i = i + 1;
    }
    assert(out@ =~= bpsk_byte_symbols(byte));
    out
}

/// Maps two bits to their QPSK symbol; `None` when `bits` exceeds 3.
pub fn qpsk_bit_mod(bits: u8) -> (r: Option<Complex<i16>>)
    ensures
        bits <= 3 ==> r == Some(qpsk_symbol(bits)),
        bits > 3 ==> r is None,
{
    if bits == 0 {
        assert(0u8 & 1 == 0 && 0u8 & 2 == 0) by (bit_vector);
        Some(Complex::new(1, 1))
    } else if bits == 1 {
        assert(1u8 & 1 == 1 && 1u8 & 2 == 0) by (bit_vector);
        Some(Complex::new(-1, 1))
    } else if bits == 2 {
        assert(2u8 & 1 == 0 && 2u8 & 2 == 2) by (bit_vector);
        Some(Complex::new(1, -1))
    } else if bits == 3 {
        assert(3u8 & 1 == 1 && 3u8 & 2 == 2) by (bit_vector);
        Some(Complex::new(-1, -1))
    } else {
        None
    }
}

/// Maps a byte to four QPSK symbols, least significant bit pair first.
pub fn qpsk_byte_mod(byte: u8) -> (r: Vec<Complex<i16>>)
    ensures
        r@ == qpsk_byte_symbols(byte),
{
    let mut out: Vec<Complex<i16>> = Vec::new();
    let mut k: u8 = 0;
    while k < 4
        invariant
            0 <= k <= 4,
            out.len() == k,
            forall|j: int| 0 <= j < k ==> out@[j] == qpsk_symbol(byte_pair(byte, j)),
        decreases 4 - k,
    {
        let shift: u8 = 2 * k;
        let b = (byte >> shift) & 3;
        assert(b <= 3) by (bit_vector)
            requires b == (byte >> shift) & 3;
        let sym = qpsk_bit_mod(b).unwrap();
        out.push(sym);
        k = k + 1;
    }
    assert(out@ =~= qpsk_byte_symbols(byte));
    out
}

/// The bit that a hard decision on a BPSK symbol gives: 1 for a negative
/// real part, 0 otherwise.
pub open spec fn bpsk_decision(c: Complex<i16>) -> int {
    if c.re < 0 { 1 } else { 0 }
}

/// The two bits that a hard decision on a QPSK symbol gives.
pub open spec fn qpsk_decision(c: Complex<i16>) -> int {
    (if c.re < 0 { 1int } else { 0int }) + (if c.im < 0 { 2int } else { 0int })
}

/// BPSK loses nothing: hard decisions on the eight symbols of a byte,
/// weighted by their bit positions, give the byte back.
pub proof fn lemma_bpsk_byte_recoverable(byte: u8)
    ensures
        ({
            let s = bpsk_byte_symbols(byte);
            bpsk_decision(s[0]) + 2 * bpsk_decision(s[1]) + 4 * bpsk_decision(s[2]) + 8 * bpsk_decision(s[3])
                + 16 * bpsk_decision(s[4]) + 32 * bpsk_decision(s[5]) + 64 * bpsk_decision(s[6])
                + 128 * bpsk_decision(s[7]) == byte as int
        }),
{
    assert(byte as int == ((byte >> 0u8) & 1) + 2 * ((byte >> 1u8) & 1) + 4 * ((byte >> 2u8) & 1) + 8 * ((byte >> 3u8) & 1)
        + 16 * ((byte >> 4u8) & 1) + 32 * ((byte >> 5u8) & 1) + 64 * ((byte >> 6u8) & 1) + 128 * ((byte >> 7u8) & 1))
        by (bit_vector);
    assert forall|i: int| 0 <= i < 8 implies bpsk_decision(#[trigger] bpsk_byte_symbols(byte)[i]) == byte_bit(byte, i) by {
        let b = byte_bit(byte, i);
        let sh = i as u8;
        assert(((byte >> sh) & 1) <= 1) by (bit_vector);
    }
}

/// QPSK loses nothing: hard decisions on the four symbols of a byte,
/// weighted by their bit positions, give the byte back.
pub proof fn lemma_qpsk_byte_recoverable(byte: u8)
    ensures
        ({
            let s = qpsk_byte_symbols(byte);
            qpsk_decision(s[0]) + 4 * qpsk_decision(s[1]) + 16 * qpsk_decision(s[2]) + 64 * qpsk_decision(s[3])
                == byte as int
        }),
{
    assert(byte as int == ((byte >> 0u8) & 3) + 4 * ((byte >> 2u8) & 3) + 16 * ((byte >> 4u8) & 3) + 64 * ((byte >> 6u8) & 3))
        by (bit_vector);
    assert forall|k: int| 0 <= k < 4 implies qpsk_decision(#[trigger] qpsk_byte_symbols(byte)[k]) == byte_pair(byte, k) by {
        let p = byte_pair(byte, k);
        let sh = (2 * k) as u8;
        assert(((byte >> sh) & 3) <= 3) by (bit_vector);
        assert(p <= 3);
        assert(p <= 3 ==> (p & 1 == 0 || p & 1 == 1) && (p & 2 == 0 || p & 2 == 2) && p == (p & 1) + (p & 2))
            by (bit_vector);
    }
}

} // verus!
