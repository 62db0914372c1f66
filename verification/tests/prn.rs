use comms_rs::prn::prn_node;
use comms_rs::prn::PrnGen;
use std::collections::HashMap;

// A reference LFSR that records the states it has visited.
struct TestPrnsGenerator {
    poly_mask: u8,
    state: u8,
    statemap: HashMap<u8, u8>,
}

impl TestPrnsGenerator {
    fn run(&mut self) -> Option<u8> {
        if self.statemap.contains_key(&self.state) {
            println!("\nSize of <T>: {}", std::mem::size_of::<u8>());
            println!("\n\nWrapped, size = {}!", self.statemap.len());
            assert_eq!(self.statemap.len(), 255);
            return None;
        } else {
            self.statemap.insert(self.state, 1 as u8);
        }

        let fb_bit = ((self.state & self.poly_mask).count_ones() % 2) as u8;
        let output = self.state >> (std::mem::size_of::<u8>() * 8 - 1);
        self.state = self.state << 1;
        self.state = self.state | fb_bit;
        Some(output)
    }
}

#[test]
// A test to verify the correctness of a maximum length PRBS8.
fn test_prns8_correctness() {
    let mut prngen = TestPrnsGenerator {
        poly_mask: 0xB8 as u8,
        state: 0x01,
        statemap: HashMap::new(),
    };
    let mut gen = PrnGen::new(0xB8 as u8, 0x01);

    loop {
        match prngen.run() {
            Some(x) => {
                println!("{:x}", x);
                assert_eq!(gen.next_byte(), x);
            }
            None => break,
        }
    }
}

#[test]
// The node form matches the PRBS7 output.
fn test_prns_node() {
    let mut mynode = prn_node::prns(0xC0 as u8, 0x01);
    let mut state: Vec<u8> = Vec::new();
    for _ in 0..128 {
        state.push(mynode.run().unwrap());
    }
    assert_eq!(
        state,
        vec![
            0, 0, 0, 0, 0, 0, 0, 1, 0, 0, 0, 0, 0, 0, 1, 1, 0, 0, 0, 0, 0, 1, 0, 1, 0, 0, 0, 0, 1, 1, 1,
            1, 0, 0, 0, 1, 0, 0, 0, 1, 0, 0, 1, 1, 0, 0, 1, 1, 0, 1, 0, 1, 0, 1, 0, 1, 1, 1, 1, 1, 1, 1,
            1, 0, 0, 0, 0, 0, 0, 0, 1, 0, 0, 0, 0, 0, 0, 1, 1, 0, 0, 0, 0, 0, 1, 0, 1, 0, 0, 0, 0, 1, 1,
            1, 1, 0, 0, 0, 1, 0, 0, 0, 1, 0, 0, 1, 1, 0, 0, 1, 1, 0, 1, 0, 1, 0, 1, 0, 1, 1, 1, 1, 1, 1,
            1, 1, 0, 0
        ]
    );
}

#[test]
// Each bit that goes out is the feedback bit that came in eight steps earlier.
fn prn_output_repeats_feedback_after_width() {
    let mut gen = PrnGen::new(0xB8u8, 0x01);
    let mut reference: u8 = 0x01;
    let mut feedback: Vec<u8> = Vec::new();
    let mut outputs: Vec<u8> = Vec::new();
    for _ in 0..300 {
        feedback.push(((reference & 0xB8).count_ones() % 2) as u8);
        reference = (reference << 1) | feedback[feedback.len() - 1];
        outputs.push(gen.next_byte());
    }
    for k in 0..(300 - 8) {
        assert_eq!(outputs[k + 8], feedback[k]);
    }
}

#[test]
// Wider registers use their own top bit: a 16-bit register starting at 1
// emits fifteen zeros and then a one.
fn prn_wide_register_output() {
    let mut gen = PrnGen::new(0x0000u16, 0x0001u16);
    let out: Vec<u8> = (0..17).map(|_| gen.next_byte()).collect();
    let mut expected = vec![0u8; 15];
    expected.push(1);
    expected.push(0);
    assert_eq!(out, expected);

    let mut gen64 = PrnGen::new(0u64, 1u64 << 63);
    assert_eq!(gen64.next_byte(), 1);
    assert_eq!(gen64.next_byte(), 0);
}

#[test]
// With every tap selected, the feedback is the parity of the whole register.
fn prn_full_mask_parity() {
    let mut gen = PrnGen::new(0xFFu8, 0x03u8);
    // 0b0000_0011 -> parity 0 -> 0b0000_0110 -> parity 0 -> ...
    for _ in 0..5 {
        assert_eq!(gen.next_byte(), 0);
    }
    // register is now 0b0110_0000; the next two outputs are 0 then 1.
    assert_eq!(gen.next_byte(), 0);
    assert_eq!(gen.next_byte(), 1);
}

#[test]
fn prn_u128_register_matches_shift_and_parity() {
    let mask: u128 = 0xE100_0000_0000_0000_0000_0000_0000_0000;
    let mut s: u128 = 0x0123_4567_89ab_cdef_0011_2233_4455_6677;
    let mut gen = PrnGen::new(mask, s);
    for _ in 0..400 {
        let fb = ((s & mask).count_ones() % 2) as u128;
        let expected = (s >> 127) as u8;
        s = (s << 1) | fb;
        assert_eq!(gen.next_byte(), expected);
    }
}

#[test]
fn prn_usize_register_matches_shift_and_parity() {
    let mask: usize = usize::MAX;
    let mut s: usize = usize::MAX;
    let mut gen = PrnGen::new(mask, s);
    for _ in 0..300 {
        let fb = ((s & mask).count_ones() % 2) as usize;
        let expected = (s >> (usize::BITS - 1)) as u8;
        s = (s << 1) | fb;
        assert_eq!(gen.next_byte(), expected);
    }
}
