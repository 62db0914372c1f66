use comms_rs::complex::Complex;
use comms_rs::util::resample_node::{DecimateNode, UpsampleNode};

#[test]
fn test_decimate() {
    let v1 = vec![1, 2, 3, 4, 5, 6];
    // First, check a simple decimate.
    let dec_node = DecimateNode::new(2);
    assert_eq!(dec_node.decimate(&v1), vec![1, 3, 5]);

    // Next, check a decimate with a rate longer than the data.
    let dec_node = DecimateNode::new(100);
    assert_eq!(dec_node.decimate(&v1), vec![1]);

    // Check a decimate with 0. The data should be unchanged.
    let dec_node = DecimateNode::new(0);
    assert_eq!(dec_node.decimate(&v1), v1);

    // Check a decimate with 1. The data should be unchanged.
    let dec_node = DecimateNode::new(1);
    assert_eq!(dec_node.decimate(&v1), v1);
}

#[test]
fn test_upsample() {
    let v1 = vec![1, 2, 3, 4];
    // Simple upsample test
    let ups_node = UpsampleNode::new(4);
    assert_eq!(
        ups_node.upsample(&v1),
        vec![1, 0, 0, 0, 2, 0, 0, 0, 3, 0, 0, 0, 4, 0, 0, 0]
    );

    // Check a rate that's zero; the data should be unchanged
    let ups_node = UpsampleNode::new(0);
    assert_eq!(ups_node.upsample(&v1), v1);

    // Check a rate that's one; the data should be unchanged
    let ups_node = UpsampleNode::new(1);
    assert_eq!(ups_node.upsample(&v1), v1);
}

#[test]
fn decimate_and_upsample_documented_examples() {
    let node = DecimateNode::new(3);
    let data = vec![1, 2, 3, 4, 5, 6, 7, 8];
    assert_eq!(node.decimate(&data), vec![1, 4, 7]);

    let node = UpsampleNode::new(3);
    let data = vec![1, 2, 3];
    assert_eq!(node.upsample(&data), vec![1, 0, 0, 2, 0, 0, 3, 0, 0]);
}

#[test]
fn decimate_undoes_upsample() {
    let data: Vec<i16> = vec![5, -3, 0, 7, 9];
    for rate in 0..6usize {
        let up = UpsampleNode::new(rate).upsample(&data);
        assert_eq!(DecimateNode::new(rate).decimate(&up), data);
    }
    let samples = vec![Complex::new(1i16, 2i16), Complex::new(-3, 4)];
    let mut up_node = UpsampleNode::new(3);
    let up = up_node.run(&samples).unwrap();
    assert_eq!(up[1], Complex::new(0, 0));
    let mut dec_node = DecimateNode::new(3);
    assert_eq!(dec_node.run(&up).unwrap(), samples);
}

#[test]
fn resample_empty_input() {
    let empty: Vec<u8> = vec![];
    assert_eq!(DecimateNode::new(4).decimate(&empty), empty);
    assert_eq!(UpsampleNode::new(4).upsample(&empty), empty);
}
