use comms_rs::complex::Complex;
use comms_rs::pulse::pulse_node::pulse_node;
use comms_rs::pulse::PulseNode;
use comms_rs::util::math::rect_taps;

fn symbols() -> Vec<Complex<i16>> {
    vec![
        Complex::new(-1, -1),
        Complex::new(1, -1),
        Complex::new(1, -1),
        Complex::new(1, 1),
        Complex::new(-1, 1),
    ]
}

fn held() -> Vec<Complex<i16>> {
    vec![
        Complex::new(-1, -1),
        Complex::new(-1, -1),
        Complex::new(-1, -1),
        Complex::new(-1, -1),
        Complex::new(1, -1),
        Complex::new(1, -1),
        Complex::new(1, -1),
        Complex::new(1, -1),
        Complex::new(1, -1),
        Complex::new(1, -1),
        Complex::new(1, -1),
        Complex::new(1, -1),
        Complex::new(1, 1),
        Complex::new(1, 1),
        Complex::new(1, 1),
        Complex::new(1, 1),
        Complex::new(-1, 1),
        Complex::new(-1, 1),
        Complex::new(-1, 1),
        Complex::new(-1, 1),
    ]
}

#[test]
fn test_rect_node() {
    let sam_per_sym = 4;
    let taps = rect_taps(sam_per_sym).unwrap();
    let mut mynode = PulseNode::new(taps, sam_per_sym);
    let mut state = vec![];
    for s in symbols() {
        for value in mynode.run(&s).unwrap() {
            state.push(value);
        }
    }
    assert_eq!(state, held());
}

#[test]
fn pulse_node_constructor() {
    let sam_per_sym = 4;
    let taps = rect_taps(sam_per_sym).unwrap();
    let mut mynode = pulse_node(taps, sam_per_sym);
    let mut state = vec![];
    for s in symbols() {
        state.extend(mynode.run(&s).unwrap());
    }
    assert_eq!(state, held());
}

#[test]
fn rect_taps_are_ones() {
    assert_eq!(rect_taps(3).unwrap(), vec![Complex::new(1i16, 0i16); 3]);
    assert_eq!(rect_taps::<i16>(0).unwrap(), vec![]);
}

#[test]
fn single_sample_per_symbol_is_plain_filtering() {
    let taps = vec![Complex::new(2i16, 0i16), Complex::new(1, 0)];
    let mut node = PulseNode::new(taps, 1);
    assert_eq!(node.run(&Complex::new(1, 1)).unwrap(), vec![Complex::new(2, 2)]);
    assert_eq!(node.run(&Complex::new(3, 0)).unwrap(), vec![Complex::new(7, 1)]);
}
