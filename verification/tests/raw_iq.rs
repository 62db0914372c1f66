use byteorder::{ByteOrder, NativeEndian};
use comms_rs::complex::Complex;
use comms_rs::io::raw_iq::{iq_samples_from_bytes, iq_samples_from_bytes_in, iq_samples_to_bytes, iq_samples_to_bytes_in};

#[test]
fn raw_iq_round_trip() {
    let samples: Vec<Complex<i16>> = (0..100).map(|x| Complex::new(x as i16 * 300, -(x as i16) - 7)).collect();
    let bytes = iq_samples_to_bytes(&samples);
    assert_eq!(bytes.len(), 400);
    assert_eq!(iq_samples_from_bytes(&bytes), samples);
}

#[test]
fn raw_iq_matches_native_byte_order() {
    let mut buf = [0u8; 8];
    NativeEndian::write_i16(&mut buf[0..2], -1000);
    NativeEndian::write_i16(&mut buf[2..4], 1234);
    NativeEndian::write_i16(&mut buf[4..6], i16::MIN);
    NativeEndian::write_i16(&mut buf[6..8], i16::MAX);
    let decoded = iq_samples_from_bytes(&buf);
    assert_eq!(decoded, vec![Complex::new(-1000, 1234), Complex::new(i16::MIN, i16::MAX)]);
    assert_eq!(iq_samples_to_bytes(&decoded), buf.to_vec());
}

#[test]
fn raw_iq_ignores_trailing_partial_sample() {
    let bytes = vec![1u8, 0, 2, 0, 9, 9, 9];
    let decoded = iq_samples_from_bytes(&bytes);
    assert_eq!(decoded.len(), 1);
    assert_eq!(decoded[0], Complex::new(NativeEndian::read_i16(&[1, 0]), NativeEndian::read_i16(&[2, 0])));
}

#[test]
fn raw_iq_explicit_orders() {
    let samples = vec![Complex::new(0x0102i16, -2), Complex::new(i16::MIN, 0x7f00)];
    let le = iq_samples_to_bytes_in(&samples, true);
    let be = iq_samples_to_bytes_in(&samples, false);
    assert_eq!(le, vec![0x02, 0x01, 0xfe, 0xff, 0x00, 0x80, 0x00, 0x7f]);
    assert_eq!(be, vec![0x01, 0x02, 0xff, 0xfe, 0x80, 0x00, 0x7f, 0x00]);
    assert_eq!(iq_samples_from_bytes_in(&le, true), samples);
    assert_eq!(iq_samples_from_bytes_in(&be, false), samples);
    assert_eq!(iq_samples_from_bytes_in(&le, false)[0], Complex::new(0x0201i16, -257));
}

#[test]
fn raw_iq_explicit_order_matches_host() {
    let samples: Vec<Complex<i16>> = (0..10).map(|x| Complex::new(x * 1000 - 5000, 77 - x)).collect();
    let little = NativeEndian::read_i16(&[1, 0]) == 1;
    assert_eq!(iq_samples_to_bytes_in(&samples, little), iq_samples_to_bytes(&samples));
}

#[test]
fn raw_iq_batches_chain() {
    let samples: Vec<Complex<i16>> = (0..6).map(|x| Complex::new(x, -x)).collect();
    let bytes = iq_samples_to_bytes_in(&samples, true);
    let first = iq_samples_from_bytes_in(&bytes[..12], true);
    let rest = iq_samples_from_bytes_in(&bytes[12..], true);
    assert_eq!(first.len(), 3);
    assert_eq!([first, rest].concat(), iq_samples_from_bytes_in(&bytes, true));
}
