use comms_rs::util::blocks::BlockBuffer;

#[test]
fn block_buffer_hands_out_consecutive_blocks() {
    let mut buf = BlockBuffer::new(3);
    let mut blocks: Vec<Vec<u32>> = Vec::new();
    for x in 0..10u32 {
        match buf.push(x) {
            Some(b) => blocks.push(b),
            None => assert!(x % 3 != 2),
        }
    }
    assert_eq!(blocks, vec![vec![0, 1, 2], vec![3, 4, 5], vec![6, 7, 8]]);
}

#[test]
fn block_buffer_of_one_returns_each_sample() {
    let mut buf = BlockBuffer::new(1);
    assert_eq!(buf.push('a'), Some(vec!['a']));
    assert_eq!(buf.push('b'), Some(vec!['b']));
}

#[test]
fn block_buffer_of_zero_never_completes() {
    let mut buf = BlockBuffer::new(0);
    for x in 0..5u8 {
        assert_eq!(buf.push(x), None);
    }
}
