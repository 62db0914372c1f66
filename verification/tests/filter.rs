use comms_rs::complex::Complex;
use comms_rs::filter::fir::{batch_fir, fir};
use comms_rs::filter::fir_node;
use comms_rs::fir::fir_node as old_fir_node;

fn zero() -> Complex<i16> {
    Complex::new(0, 0)
}

fn source() -> Vec<Complex<i16>> {
    vec![
        Complex::new(1, 2),
        Complex::new(3, 4),
        Complex::new(5, 6),
        Complex::new(7, 8),
        Complex::new(9, 0),
        zero(),
        zero(),
        zero(),
        zero(),
        zero(),
    ]
}

fn taps() -> Vec<Complex<i16>> {
    vec![
        Complex::new(9, 0),
        Complex::new(8, 7),
        Complex::new(6, 5),
        Complex::new(4, 3),
        Complex::new(2, 1),
    ]
}

fn expected() -> Vec<Complex<i16>> {
    vec![
        Complex::new(9, 18),
        Complex::new(21, 59),
        Complex::new(37, 124),
        Complex::new(57, 205),
        Complex::new(81, 204),
        Complex::new(78, 196),
        Complex::new(62, 115),
        Complex::new(42, 50),
        Complex::new(18, 9),
        Complex::new(0, 0),
    ]
}

#[test]
// A test to verify the FirNode correctly implements an FIR filter.
fn test_fir_node() {
    let mut mynode = fir_node::FirNode::new(taps(), None);
    let out: Vec<Complex<i16>> = source().iter().map(|x| mynode.run(x).unwrap()).collect();
    assert_eq!(out[..9].to_vec(), expected()[..9].to_vec());
}

#[test]
// A test to verify the BatchFirNode correctly implements an FIR filter.
fn test_batch_fir_node() {
    let mut mynode = fir_node::BatchFirNode::new(taps(), Some(vec![zero(); 5]));
    let src = source();
    let mut state = vec![];
    for pair in src.chunks(2) {
        state.append(&mut mynode.run(pair).unwrap());
    }
    assert_eq!(state, expected());
}

#[test]
fn fir_with_given_state_documented_example() {
    let input = Complex::new(3i16, -2i16);
    let taps = vec![Complex::new(2, 0), Complex::new(1, 1), Complex::new(0, -1)];
    let mut state = vec![Complex::new(1, 0), Complex::new(0, 1), Complex::new(5, 5)];
    let out = fir(&input, &taps, &mut state);
    // state is now [input, 1, i]; 2*(3-2i) + (1+i)*1 + (-i)*(i) = 6-4i + 1+i + 1
    assert_eq!(state, vec![Complex::new(3, -2), Complex::new(1, 0), Complex::new(0, 1)]);
    assert_eq!(out, Complex::new(8, -3));
}

#[test]
fn fir_uses_shorter_of_taps_and_state() {
    let taps = vec![Complex::new(1i16, 0i16); 4];
    let mut state = vec![Complex::new(7, 7), Complex::new(100, 0)];
    let out = fir(&Complex::new(2, 3), &taps, &mut state);
    assert_eq!(out, Complex::new(9, 10));
}

#[test]
fn fir_wraps_to_sixteen_bits() {
    let taps = vec![Complex::new(300i16, 0i16)];
    let mut state = vec![zero()];
    let out = fir(&Complex::new(300, -300), &taps, &mut state);
    // 90000 = 0x15F90 wraps to 0x5F90 = 24464; -90000 wraps to -24464.
    assert_eq!(out, Complex::new(24464, -24464));
}

#[test]
// Splitting a stream into batches does not change the filter outputs.
fn batch_fir_split_matches_single_batch() {
    let src = source();
    let mut whole_state = vec![zero(); 5];
    let whole = batch_fir(&src, &taps(), &mut whole_state);
    let mut split_state = vec![zero(); 5];
    let mut split = batch_fir(&src[..3], &taps(), &mut split_state);
    split.append(&mut batch_fir(&src[3..], &taps(), &mut split_state));
    assert_eq!(whole, split);
    assert_eq!(whole_state, split_state);
    assert_eq!(whole, expected());
}

#[test]
// An impulse into a zero-state filter brings out the taps.
fn fir_impulse_response_is_taps() {
    let mut impulse = vec![Complex::new(1i16, 0i16)];
    impulse.extend(vec![zero(); 4]);
    let mut state = vec![zero(); 5];
    assert_eq!(batch_fir(&impulse, &taps(), &mut state), taps());
}

#[test]
fn explicit_state_fir_nodes() {
    let mut node = old_fir_node::fir(taps(), vec![zero(); 5]);
    let out: Vec<Complex<i16>> = source().into_iter().map(|x| node.run(x)).collect();
    assert_eq!(out, expected());

    let mut batch = old_fir_node::batch_fir(taps(), vec![zero(); 5]);
    let mut out = batch.run(source()[..4].to_vec());
    out.append(&mut batch.run(source()[4..].to_vec()));
    assert_eq!(out, expected());
}

#[test]
fn batch_fir_of_nothing_needs_no_state() {
    let mut state: Vec<Complex<i16>> = Vec::new();
    assert_eq!(batch_fir(&[], &taps(), &mut state), Vec::<Complex<i16>>::new());
    let mut node = fir_node::BatchFirNode::new(taps(), Some(Vec::new()));
    assert_eq!(node.run(&[]), Ok(Vec::new()));
}

#[test]
fn fir_on_other_sample_types() {
    let taps32 = vec![Complex::new(100_000i32, -3), Complex::new(2, 70_000)];
    let mut state32 = vec![Complex::new(0i32, 0); 2];
    let y = fir(&Complex::new(50_000i32, 1), &taps32, &mut state32);
    let re = 100_000i64 * 50_000 - (-3i64) * 1;
    let im = 100_000i64 * 1 + (-3i64) * 50_000;
    assert_eq!(y, Complex::new(re as i32, im as i32));

    let taps8 = vec![Complex::new(100i8, 0), Complex::new(1, 0)];
    let mut state8 = vec![Complex::new(0i8, 0); 2];
    assert_eq!(fir(&Complex::new(3i8, -1), &taps8, &mut state8), Complex::new(44i8, -100));
    assert_eq!(fir(&Complex::new(0i8, 0), &taps8, &mut state8), Complex::new(3i8, -1));

    let tapsu = vec![Complex::new(2u16, 1)];
    let mut stateu = vec![Complex::new(0u16, 0)];
    assert_eq!(fir(&Complex::new(1u16, 3), &tapsu, &mut stateu), Complex::new(65535u16, 7));
}
