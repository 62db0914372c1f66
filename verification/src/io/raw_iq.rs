//! The raw IQ format: complex 16-bit samples stored as interleaved real and
//! imaginary parts, each two bytes in the host's byte order.

use vstd::prelude::*;
use crate::complex::Complex;
use byteorder::{BigEndian, ByteOrder, LittleEndian, NativeEndian};

verus! {

/// The 16-bit value whose little-endian bytes are `b0`, `b1`.
pub open spec fn i16_le(b0: u8, b1: u8) -> i16 {
    (b0 as int + 256 * b1 as int) as i16
}

/// The 16-bit value whose big-endian bytes are `b0`, `b1`.
pub open spec fn i16_be(b0: u8, b1: u8) -> i16 {
    i16_le(b1, b0)
}

/// The low byte of `x`.
pub open spec fn low_byte(x: i16) -> u8 {
    ((x as u16) % 256) as u8
}

/// The high byte of `x`.
pub open spec fn high_byte(x: i16) -> u8 {
    ((x as u16) / 256) as u8
}

/// The 16-bit value stored in `b0`, `b1`, little-endian when `little`,
/// big-endian otherwise.
pub open spec fn i16_in_order(b0: u8, b1: u8, little: bool) -> i16 {
    if little {
        i16_le(b0, b1)
    } else {
        i16_be(b0, b1)
    }
}

/// The first of the two bytes that store `x` in the given order.
pub open spec fn first_byte(x: i16, little: bool) -> u8 {
    if little {
        low_byte(x)
    } else {
        high_byte(x)
    }
}

/// The second of the two bytes that store `x` in the given order.
pub open spec fn second_byte(x: i16, little: bool) -> u8 {
    if little {
        high_byte(x)
    } else {
        low_byte(x)
    }
}

/// The 16-bit values stored two bytes each in `bytes`, in the given order.
pub open spec fn read_i16s(bytes: Seq<u8>, little: bool) -> Seq<i16> {
    Seq::new(bytes.len() / 2, |i: int| i16_in_order(bytes[2 * i], bytes[2 * i + 1], little))
}

/// The bytes that store `values`, two each, in the given order.
pub open spec fn write_i16s(values: Seq<i16>, little: bool) -> Seq<u8> {
    Seq::new(
        values.len() * 2,
        |k: int|
            if k % 2 == 0 {
                first_byte(values[k / 2], little)
            } else {
                second_byte(values[k / 2], little)
            },
    )
}

/// The samples stored in `bytes` with parts in the given order: sample `i`
/// takes its real part from bytes `4i`, `4i + 1` and its imaginary part from
/// bytes `4i + 2`, `4i + 3`. Bytes after the last whole sample are left out.
pub open spec fn decode_iq(bytes: Seq<u8>, little: bool) -> Seq<Complex<i16>> {
    Seq::new(
        bytes.len() / 4,
        |i: int|
            Complex {
                re: i16_in_order(bytes[4 * i], bytes[4 * i + 1], little),
                im: i16_in_order(bytes[4 * i + 2], bytes[4 * i + 3], little),
            },
    )
}

/// The part of `s` that bytes `2j`, `2j + 1` of its four hold: the real part
/// for `j == 0`, the imaginary part otherwise.
pub open spec fn part(s: Complex<i16>, j: int) -> i16 {
    if j == 0 {
        s.re
    } else {
        s.im
    }
}

/// The bytes that store `samples`: four per sample, the real part first, each
/// part in the given order.
pub open spec fn encode_iq(samples: Seq<Complex<i16>>, little: bool) -> Seq<u8> {
    Seq::new(
        samples.len() * 4,
        |k: int|
            if k % 2 == 0 {
                first_byte(part(samples[k / 4], (k % 4) / 2), little)
            } else {
                second_byte(part(samples[k / 4], (k % 4) / 2), little)
            },
    )
}

/// Reads 16-bit values, two bytes each, with
/// `byteorder::NativeEndian::read_i16_into`, which panics unless `src` holds
/// exactly two bytes per value. `NativeEndian` is `LittleEndian` or
/// `BigEndian` by the target's byte order, so the values are all read
/// little-endian or all big-endian; which order is the machine's is not
/// stated.
#[verifier::external_body]
fn read_native_i16s(src: &[u8], count: usize) -> (r: Vec<i16>)
    requires
        src.len() == 2 * count,
    ensures
        r@ == read_i16s(src@, true) || r@ == read_i16s(src@, false),
{
    let mut dst = vec![0i16; count];
    NativeEndian::read_i16_into(src, &mut dst);
    dst
}

/// Writes 16-bit values, two bytes each, with
/// `byteorder::NativeEndian::write_i16_into`, which panics unless the
/// destination holds exactly two bytes per value: all little-endian or all
/// big-endian, by the target's byte order, which is not stated.
#[verifier::external_body]
fn write_native_i16s(src: &[i16], n_bytes: usize) -> (r: Vec<u8>)
    requires
        n_bytes == 2 * src.len(),
    ensures
        r@ == write_i16s(src@, true) || r@ == write_i16s(src@, false),
{
    let mut dst = vec![0u8; n_bytes];
    NativeEndian::write_i16_into(src, &mut dst);
    dst
}

/// Reads 16-bit values, two bytes each, little-endian, with
/// `byteorder::LittleEndian::read_i16_into`, which panics unless `src` holds
/// exactly two bytes per value.
#[verifier::external_body]
fn read_le_i16s(src: &[u8], count: usize) -> (r: Vec<i16>)
    requires
        src.len() == 2 * count,
    ensures
        r@ == read_i16s(src@, true),
{
    let mut dst = vec![0i16; count];
    LittleEndian::read_i16_into(src, &mut dst);
    dst
}

/// Reads 16-bit values, two bytes each, big-endian, with
/// `byteorder::BigEndian::read_i16_into`, which panics unless `src` holds
/// exactly two bytes per value.
#[verifier::external_body]
fn read_be_i16s(src: &[u8], count: usize) -> (r: Vec<i16>)
    requires
        src.len() == 2 * count,
    ensures
        r@ == read_i16s(src@, false),
{
    let mut dst = vec![0i16; count];
    BigEndian::read_i16_into(src, &mut dst);
    dst
}

/// Writes 16-bit values, two bytes each, little-endian, with
/// `byteorder::LittleEndian::write_i16_into`, which panics unless the
/// destination holds exactly two bytes per value.
#[verifier::external_body]
fn write_le_i16s(src: &[i16], n_bytes: usize) -> (r: Vec<u8>)
    requires
        n_bytes == 2 * src.len(),
    ensures
        r@ == write_i16s(src@, true),
{
    let mut dst = vec![0u8; n_bytes];
    LittleEndian::write_i16_into(src, &mut dst);
    dst
}

/// Writes 16-bit values, two bytes each, big-endian, with
/// `byteorder::BigEndian::write_i16_into`, which panics unless the
/// destination holds exactly two bytes per value.
#[verifier::external_body]
fn write_be_i16s(src: &[i16], n_bytes: usize) -> (r: Vec<u8>)
    requires
        n_bytes == 2 * src.len(),
    ensures
        r@ == write_i16s(src@, false),
{
    let mut dst = vec![0u8; n_bytes];
    BigEndian::write_i16_into(src, &mut dst);
    dst
}

/// The bytes of the whole samples in `bytes`: all but the trailing partial
/// sample.
fn whole_sample_bytes(bytes: &[u8]) -> (r: Vec<u8>)
    ensures
        r@ == bytes@.take(4 * (bytes.len() / 4) as int),
        r.len() == 4 * (bytes.len() / 4),
{
    let n = bytes.len() / 4;
    let mut whole: Vec<u8> = Vec::new();
    let mut k: usize = 0;
    while k < 4 * n
        invariant
            n == bytes.len() / 4,
            0 <= k <= 4 * n,
            whole@ == bytes@.take(k as int),
        decreases 4 * n - k,
    {
        whole.push(bytes[k]);
        k = k + 1;
        assert(whole@ =~= bytes@.take(k as int));
    }
    whole
}

/// Pairs up the parts read from `whole` into samples, real part first.
fn pair_parts(values: &Vec<i16>, n: usize, Ghost(whole): Ghost<Seq<u8>>, Ghost(little): Ghost<bool>) -> (r: Vec<
    Complex<i16>,
>)
    requires
        whole.len() == 4 * n,
        values@ == read_i16s(whole, little),
    ensures
        r@ == decode_iq(whole, little),
{
    let mut out: Vec<Complex<i16>> = Vec::new();
    let mut i: usize = 0;
    while i < n
        invariant
            whole.len() == 4 * n,
            0 <= i <= n,
            values@ == read_i16s(whole, little),
            values.len() == 2 * n,
            out.len() == i,
            forall|j: int| 0 <= j < i ==> #[trigger] out@[j] == decode_iq(whole, little)[j],
        decreases n - i,
    {
        let re = values[2 * i];
        let im = values[2 * i + 1];
        proof {
            let ii = i as int;
            assert(re == i16_in_order(whole[4 * ii], whole[4 * ii + 1], little));
            assert(im == i16_in_order(whole[4 * ii + 2], whole[4 * ii + 3], little));
        }
        out.push(Complex { re, im });
        i = i + 1;
    }
    assert(out@ =~= decode_iq(whole, little));
    out
}

proof fn lemma_decode_whole(bytes: Seq<u8>, little: bool)
    ensures
        decode_iq(bytes.take(4 * (bytes.len() / 4) as int), little) == decode_iq(bytes, little),
{
    assert(decode_iq(bytes.take(4 * (bytes.len() / 4) as int), little) =~= decode_iq(bytes, little));
}

/// The real and imaginary parts of `samples`, interleaved.
fn interleave_parts(samples: &[Complex<i16>]) -> (r: Vec<i16>)
    requires
        samples.len() * 4 <= usize::MAX,
    ensures
        r.len() == 2 * samples.len(),
        forall|j: int| 0 <= j < 2 * samples.len() ==> #[trigger] r@[j] == part(samples@[j / 2], j % 2),
{
    let mut flat: Vec<i16> = Vec::new();
    let mut i: usize = 0;
    while i < samples.len()
        invariant
            samples.len() * 4 <= usize::MAX,
            0 <= i <= samples.len(),
            flat.len() == 2 * i,
            forall|j: int| 0 <= j < 2 * i ==> #[trigger] flat@[j] == part(samples@[j / 2], j % 2),
        decreases samples.len() - i,
    {
        let s = samples[i];
        flat.push(s.re);
        flat.push(s.im);
        i = i + 1;
    }
    flat
}

proof fn lemma_encode_is_written(samples: Seq<Complex<i16>>, flat: Seq<i16>, little: bool)
    requires
        flat.len() == 2 * samples.len(),
        forall|j: int| 0 <= j < 2 * samples.len() ==> #[trigger] flat[j] == part(samples[j / 2], j % 2),
    ensures
        write_i16s(flat, little) == encode_iq(samples, little),
{
    assert forall|k: int| 0 <= k < samples.len() * 4 implies #[trigger] write_i16s(flat, little)[k] == encode_iq(
        samples,
        little,
    )[k] by {
        assert(flat[k / 2] == part(samples[k / 4], (k % 4) / 2)) by {
            assert((k / 2) / 2 == k / 4 && (k / 2) % 2 == (k % 4) / 2 && 0 <= k / 2 < 2 * samples.len())
                by (nonlinear_arith)
                requires 0 <= k < samples.len() * 4;
        }
    }
    assert(write_i16s(flat, little) =~= encode_iq(samples, little));
}

/// Decodes raw IQ bytes in the host's byte order. Bytes after the last whole
/// sample are left out.
pub fn iq_samples_from_bytes(bytes: &[u8]) -> (r: Vec<Complex<i16>>)
    ensures
        r@ == decode_iq(bytes@, true) || r@ == decode_iq(bytes@, false),
{
    let n = bytes.len() / 4;
    let whole = whole_sample_bytes(bytes);
    let values = read_native_i16s(whole.as_slice(), 2 * n);
    let ghost little: bool = values@ == read_i16s(whole@, true);
    let out = pair_parts(&values, n, Ghost(whole@), Ghost(little));
    proof {
        lemma_decode_whole(bytes@, little);
    }
    out
}

/// Decodes raw IQ bytes stored little-endian when `little`, big-endian
/// otherwise. Bytes after the last whole sample are left out.
pub fn iq_samples_from_bytes_in(bytes: &[u8], little: bool) -> (r: Vec<Complex<i16>>)
    ensures
        r@ == decode_iq(bytes@, little),
{
    let n = bytes.len() / 4;
    let whole = whole_sample_bytes(bytes);
    let values = if little {
        read_le_i16s(whole.as_slice(), 2 * n)
    } else {
        read_be_i16s(whole.as_slice(), 2 * n)
    };
    let out = pair_parts(&values, n, Ghost(whole@), Ghost(little));
    proof {
        lemma_decode_whole(bytes@, little);
    }
    out
}

/// Encodes samples as raw IQ bytes in the host's byte order: four bytes per
/// sample, the real part first.
pub fn iq_samples_to_bytes(samples: &[Complex<i16>]) -> (r: Vec<u8>)
    requires
        samples.len() * 4 <= usize::MAX,
    ensures
        r@ == encode_iq(samples@, true) || r@ == encode_iq(samples@, false),
{
    let flat = interleave_parts(samples);
    let bytes = write_native_i16s(flat.as_slice(), 4 * samples.len());
    proof {
        lemma_encode_is_written(samples@, flat@, true);
        lemma_encode_is_written(samples@, flat@, false);
    }
    bytes
}

/// Encodes samples as raw IQ bytes, four bytes per sample, the real part
/// first, each part little-endian when `little`, big-endian otherwise.
pub fn iq_samples_to_bytes_in(samples: &[Complex<i16>], little: bool) -> (r: Vec<u8>)
    requires
        samples.len() * 4 <= usize::MAX,
    ensures
        r@ == encode_iq(samples@, little),
{
    let flat = interleave_parts(samples);
    let bytes = if little {
        write_le_i16s(flat.as_slice(), 4 * samples.len())
    } else {
        write_be_i16s(flat.as_slice(), 4 * samples.len())
    };
    proof {
        lemma_encode_is_written(samples@, flat@, little);
    }
    bytes
}

proof fn lemma_bytes_round_trip(x: i16, little: bool)
    ensures
        i16_in_order(first_byte(x, little), second_byte(x, little), little) == x,
{
    let u = x as u16;
    assert(((u % 256) as u8) as int + 256 * ((u / 256) as u8) as int == u as int);
    assert((u as int) as i16 == x) by (bit_vector)
        requires u == x as u16;
}

proof fn lemma_value_round_trip(b0: u8, b1: u8, little: bool)
    ensures
        first_byte(i16_in_order(b0, b1, little), little) == b0,
        second_byte(i16_in_order(b0, b1, little), little) == b1,
{
    assert(low_byte(i16_le(b0, b1)) == b0 && high_byte(i16_le(b0, b1)) == b1) by (bit_vector);
    assert(low_byte(i16_le(b1, b0)) == b1 && high_byte(i16_le(b1, b0)) == b0) by (bit_vector);
}

/// Encoding, in a byte order, the samples that decoding in the same order
/// gave returns the bytes of the whole samples.
pub proof fn lemma_iq_bytes_round_trip(bytes: Seq<u8>, little: bool)
    ensures
        encode_iq(decode_iq(bytes, little), little) == bytes.take(4 * (bytes.len() / 4) as int),
{
    let d = decode_iq(bytes, little);
    let e = encode_iq(d, little);
    let w = bytes.take(4 * (bytes.len() / 4) as int);
    assert forall|k: int| 0 <= k < e.len() implies #[trigger] e[k] == w[k] by {
        let i = k / 4;
        let j = k % 4;
        assert(k == 4 * i + j && 0 <= j < 4 && 0 <= i < d.len()) by (nonlinear_arith)
            requires 0 <= k < d.len() * 4, i == k / 4, j == k % 4;
        assert((j / 2 == 0 && k % 2 == 0 ==> k == 4 * i) && (j / 2 == 0 && k % 2 == 1 ==> k == 4 * i + 1)
            && (j / 2 == 1 && k % 2 == 0 ==> k == 4 * i + 2) && (j / 2 == 1 && k % 2 == 1 ==> k == 4 * i + 3))
            by (nonlinear_arith)
            requires k == 4 * i + j, 0 <= j < 4;
        lemma_value_round_trip(bytes[4 * i], bytes[4 * i + 1], little);
        lemma_value_round_trip(bytes[4 * i + 2], bytes[4 * i + 3], little);
    }
    assert(e =~= w);
}

/// Decoding, in a byte order, the bytes that encoding in the same order gave
/// returns the samples.
pub proof fn lemma_iq_round_trip(samples: Seq<Complex<i16>>, little: bool)
    ensures
        decode_iq(encode_iq(samples, little), little) == samples,
{
    let e = encode_iq(samples, little);
    let d = decode_iq(e, little);
    assert(e.len() / 4 == samples.len());
    assert forall|i: int| 0 <= i < samples.len() implies #[trigger] d[i] == samples[i] by {
        let s = samples[i];
        assert((4 * i) / 4 == i && (4 * i + 1) / 4 == i && (4 * i + 2) / 4 == i && (4 * i + 3) / 4 == i)
            by (nonlinear_arith)
            requires 0 <= i;
        assert((4 * i) % 4 == 0 && (4 * i + 1) % 4 == 1 && (4 * i + 2) % 4 == 2 && (4 * i + 3) % 4 == 3)
            by (nonlinear_arith)
            requires 0 <= i;
        assert(e[4 * i] == first_byte(s.re, little));
        assert(e[4 * i + 1] == second_byte(s.re, little));
        assert(e[4 * i + 2] == first_byte(s.im, little));
        assert(e[4 * i + 3] == second_byte(s.im, little));
        lemma_bytes_round_trip(s.re, little);
        lemma_bytes_round_trip(s.im, little);
    }
    assert(d =~= samples);
}

/// Reading a byte stream batch by batch gives the samples that reading it
/// whole gives: decoding a prefix of whole samples and then the rest equals
/// decoding all of it.
pub proof fn lemma_decode_concat(a: Seq<u8>, b: Seq<u8>, little: bool)
    requires
        a.len() % 4 == 0,
    ensures
        decode_iq(a + b, little) == decode_iq(a, little) + decode_iq(b, little),
{
    let ab = a + b;
    let na = a.len() / 4;
    assert(ab.len() / 4 == na + b.len() / 4) by (nonlinear_arith)
        requires ab.len() == a.len() + b.len(), a.len() % 4 == 0, na == a.len() / 4;
    assert forall|i: int| 0 <= i < decode_iq(ab, little).len() implies #[trigger] decode_iq(ab, little)[i] == (
    decode_iq(a, little) + decode_iq(b, little))[i] by {
        if i >= na {
            let j = i - na;
            assert(4 * i == a.len() + 4 * j) by (nonlinear_arith)
                requires j == i - na, na == a.len() / 4, a.len() % 4 == 0;
        }
    }
    assert(decode_iq(ab, little) =~= decode_iq(a, little) + decode_iq(b, little));
}

} // verus!
