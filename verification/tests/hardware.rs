use comms_rs::hardware::radio::{RadioRx, RadioRxNode, RadioTx, RadioTxNode};
use comms_rs::hardware::rtlsdr_node;
use comms_rs::hardware::rtlsdr_radio::{rtlsdr, RadioCommand, RadioStep, RTLSDR};

// A stand-in device that records the commands it is given and fails the
// command at a chosen position.
struct FakeDevice {
    log: Vec<RadioCommand>,
    fail_at: Option<usize>,
}

impl FakeDevice {
    fn perform(&mut self, cmd: RadioCommand) -> Result<(), i32> {
        self.log.push(cmd);
        if Some(self.log.len() - 1) == self.fail_at {
            Err(-5)
        } else {
            Ok(())
        }
    }
}

fn drive(sdr: &mut RTLSDR<FakeDevice>, first: RadioStep<i32>) -> Result<(), i32> {
    let mut step = first;
    loop {
        match step {
            RadioStep::Issue(cmd) => {
                let reply = sdr.device.perform(cmd);
                step = sdr.advance(reply);
            }
            RadioStep::Finished(res) => return res,
        }
    }
}

#[test]
fn init_radio_issues_configuration_in_order() {
    let mut sdr = rtlsdr::<FakeDevice, i32>(Ok(FakeDevice { log: vec![], fail_at: None })).unwrap();
    let first = sdr.init_radio(88_700_000, 2_400_000, 0);
    assert_eq!(first, RadioStep::Issue(RadioCommand::SetCenterFreq(88_700_000)));
    assert_eq!(drive(&mut sdr, first), Ok(()));
    assert_eq!(
        sdr.device.log,
        vec![
            RadioCommand::SetCenterFreq(88_700_000),
            RadioCommand::SetSampleRate(2_400_000),
            RadioCommand::SetTunerGain(0),
            RadioCommand::ResetBuffer,
        ]
    );
}

#[test]
fn init_radio_stops_at_first_failure() {
    let mut sdr = rtlsdr::<FakeDevice, i32>(Ok(FakeDevice { log: vec![], fail_at: Some(1) })).unwrap();
    let first = sdr.init_radio(100, 200, 7);
    assert_eq!(drive(&mut sdr, first), Err(-5));
    assert_eq!(sdr.device.log, vec![RadioCommand::SetCenterFreq(100), RadioCommand::SetSampleRate(200)]);
}

#[test]
fn agc_and_teardown_are_single_commands() {
    let mut sdr = rtlsdr::<FakeDevice, i32>(Ok(FakeDevice { log: vec![], fail_at: None })).unwrap();
    let step = sdr.set_agc(true);
    assert_eq!(drive(&mut sdr, step), Ok(()));
    let step = sdr.teardown();
    assert_eq!(drive(&mut sdr, step), Ok(()));
    assert_eq!(sdr.device.log, vec![RadioCommand::SetAgcMode(true), RadioCommand::Close]);
}

#[test]
fn open_failure_is_passed_on() {
    assert!(rtlsdr::<FakeDevice, i32>(Err(-1)).is_err());
    assert!(rtlsdr_node::rtlsdr::<FakeDevice, i32>(Err(-2), 16).is_err());
}

#[test]
fn node_reads_or_gives_nothing() {
    let mut node =
        rtlsdr_node::rtlsdr::<FakeDevice, i32>(Ok(FakeDevice { log: vec![], fail_at: None }), 262144).unwrap();
    assert_eq!(node.num_samples(), 262144);
    assert_eq!(node.get_samples::<i32>(Ok(vec![1, 2, 3])), vec![1, 2, 3]);
    assert_eq!(node.get_samples::<i32>(Err(3)), Vec::<u8>::new());
    let step = node.init_radio::<i32>(88_700_000, 2_400_000, 0);
    assert_eq!(step, RadioStep::Issue(RadioCommand::SetCenterFreq(88_700_000)));
    let step = node.set_agc::<i32>(false);
    assert_eq!(step, RadioStep::Issue(RadioCommand::SetAgcMode(false)));
}

struct Loopback {
    sent: Vec<(Vec<u16>, usize)>,
}

impl RadioTx<u16> for Loopback {
    fn send_samples(&mut self, samples: &[u16], output_idx: usize) {
        self.sent.push((samples.to_vec(), output_idx));
    }
}

impl RadioRx<u16> for Loopback {
    fn recv_samples(&mut self, num_samples: usize, input_idx: usize) -> Vec<u16> {
        vec![input_idx as u16; num_samples]
    }
}

#[test]
fn radio_nodes_drive_the_hardware() {
    let mut tx = RadioTxNode::new(Loopback { sent: vec![] }, 2);
    assert!(tx.run(&[1, 2, 3]).is_ok());
    let mut rx = RadioRxNode::new(Loopback { sent: vec![] }, 3, 4);
    assert_eq!(rx.run().unwrap(), vec![3u16; 4]);
}

fn drive_node(node: &mut rtlsdr_node::RTLSDRNode<FakeDevice>, first: RadioStep<i32>) -> Result<(), i32> {
    let mut step = first;
    loop {
        match step {
            RadioStep::Issue(cmd) => {
                let reply = node.sdr.device.perform(cmd);
                step = node.advance(reply);
            }
            RadioStep::Finished(res) => return res,
        }
    }
}

#[test]
fn node_setup_ends_at_first_failure() {
    let mut node =
        rtlsdr_node::rtlsdr::<FakeDevice, i32>(Ok(FakeDevice { log: vec![], fail_at: Some(2) }), 64).unwrap();
    let first = node.init_radio(100, 200, 7);
    assert_eq!(drive_node(&mut node, first), Err(-5));
    assert_eq!(
        node.sdr.device.log,
        vec![RadioCommand::SetCenterFreq(100), RadioCommand::SetSampleRate(200), RadioCommand::SetTunerGain(7)]
    );
    assert_eq!(node.num_samples(), 64);
}

#[test]
fn node_setup_and_agc_succeed() {
    let mut node =
        rtlsdr_node::rtlsdr::<FakeDevice, i32>(Ok(FakeDevice { log: vec![], fail_at: None }), 8).unwrap();
    let first = node.init_radio(1, 2, 3);
    assert_eq!(drive_node(&mut node, first), Ok(()));
    let first = node.set_agc(true);
    assert_eq!(drive_node(&mut node, first), Ok(()));
    assert_eq!(node.sdr.device.log.len(), 5);
    assert_eq!(node.sdr.device.log[4], RadioCommand::SetAgcMode(true));
}
