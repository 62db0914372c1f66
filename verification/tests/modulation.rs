use comms_rs::complex::Complex;
use comms_rs::modulation::digital::{bpsk_bit_mod, bpsk_byte_mod, qpsk_bit_mod, qpsk_byte_mod};

#[test]
fn test_bpsk_bit() {
    assert_eq!(bpsk_bit_mod(0_u8).unwrap(), Complex::new(1, 0));
    assert_eq!(bpsk_bit_mod(1_u8).unwrap(), Complex::new(-1, 0));
}

#[test]
fn test_qpsk_bit() {
    assert_eq!(qpsk_bit_mod(0_u8).unwrap(), Complex::new(1, 1));
    assert_eq!(qpsk_bit_mod(1_u8).unwrap(), Complex::new(-1, 1));
    assert_eq!(qpsk_bit_mod(2_u8).unwrap(), Complex::new(1, -1));
    assert_eq!(qpsk_bit_mod(3_u8).unwrap(), Complex::new(-1, -1));
}

#[test]
fn test_bpsk_byte() {
    assert_eq!(bpsk_byte_mod(0_u8), vec![Complex::new(1, 0); 8]);
    assert_eq!(
        bpsk_byte_mod(31_u8),
        vec![
            Complex::new(-1, 0),
            Complex::new(-1, 0),
            Complex::new(-1, 0),
            Complex::new(-1, 0),
            Complex::new(-1, 0),
            Complex::new(1, 0),
            Complex::new(1, 0),
            Complex::new(1, 0)
        ]
    );
    assert_eq!(
        bpsk_byte_mod(63_u8),
        vec![
            Complex::new(-1, 0),
            Complex::new(-1, 0),
            Complex::new(-1, 0),
            Complex::new(-1, 0),
            Complex::new(-1, 0),
            Complex::new(-1, 0),
            Complex::new(1, 0),
            Complex::new(1, 0)
        ]
    );
    assert_eq!(
        bpsk_byte_mod(127_u8),
        vec![
            Complex::new(-1, 0),
            Complex::new(-1, 0),
            Complex::new(-1, 0),
            Complex::new(-1, 0),
            Complex::new(-1, 0),
            Complex::new(-1, 0),
            Complex::new(-1, 0),
            Complex::new(1, 0)
        ]
    );
    assert_eq!(bpsk_byte_mod(255_u8), vec![Complex::new(-1, 0); 8]);
}

#[test]
fn test_qpsk_byte() {
    assert_eq!(
        qpsk_byte_mod(0_u8),
        vec![
            Complex::new(1, 1),
            Complex::new(1, 1),
            Complex::new(1, 1),
            Complex::new(1, 1)
        ]
    );
    assert_eq!(
        qpsk_byte_mod(2_u8),
        vec![
            Complex::new(1, -1),
            Complex::new(1, 1),
            Complex::new(1, 1),
            Complex::new(1, 1)
        ]
    );
    assert_eq!(
        qpsk_byte_mod(4_u8),
        vec![
            Complex::new(1, 1),
            Complex::new(-1, 1),
            Complex::new(1, 1),
            Complex::new(1, 1)
        ]
    );
    assert_eq!(
        qpsk_byte_mod(15_u8),
        vec![
            Complex::new(-1, -1),
            Complex::new(-1, -1),
            Complex::new(1, 1),
            Complex::new(1, 1)
        ]
    );
    assert_eq!(
        qpsk_byte_mod(254_u8),
        vec![
            Complex::new(1, -1),
            Complex::new(-1, -1),
            Complex::new(-1, -1),
            Complex::new(-1, -1)
        ]
    );
}

#[test]
fn bit_mod_rejects_out_of_range_input() {
    assert_eq!(bpsk_bit_mod(2), None);
    assert_eq!(bpsk_bit_mod(255), None);
    assert_eq!(qpsk_bit_mod(4), None);
    assert_eq!(qpsk_bit_mod(200), None);
}

#[test]
// Hard decisions on the symbols give every byte back.
fn byte_mod_is_recoverable() {
    for byte in 0..=255u8 {
        let b: u32 = bpsk_byte_mod(byte)
            .iter()
            .enumerate()
            .map(|(i, c)| if c.re < 0 { 1u32 << i } else { 0 })
            .sum();
        assert_eq!(b, byte as u32);
        let q: u32 = qpsk_byte_mod(byte)
            .iter()
            .enumerate()
            .map(|(k, c)| {
                let bits = (if c.re < 0 { 1 } else { 0 }) + (if c.im < 0 { 2 } else { 0 });
                bits << (2 * k)
            })
            .sum();
        assert_eq!(q, byte as u32);
    }
}
