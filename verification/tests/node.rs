use comms_rs::node::{CycleAction, CycleEvent, NodeCycle, NodeError};
use comms_rs::util::MathError;

// Drives one cycle with the given outcomes and returns the actions taken.
fn run_cycle(cycle: &mut NodeCycle, run: Result<bool, NodeError>, failing_send: Option<usize>) -> Vec<CycleAction> {
    let mut actions = vec![];
    let mut action = cycle.begin();
    let mut sends = 0;
    loop {
        actions.push(action);
        let ev = match action {
            CycleAction::Receive(_) => CycleEvent::Received,
            CycleAction::Run => CycleEvent::RunFinished(run),
            CycleAction::Send(_, _) => {
                let ok = Some(sends) != failing_send;
                sends += 1;
                CycleEvent::Sent(ok)
            }
            CycleAction::Done(_) => return actions,
        };
        action = cycle.step(ev);
    }
}

#[test]
fn cycle_receives_runs_and_fans_out() {
    let mut cycle = NodeCycle::new(vec![true, true], vec![2, 0, 1], false);
    assert!(cycle.is_connected());
    let actions = run_cycle(&mut cycle, Ok(true), None);
    assert_eq!(
        actions,
        vec![
            CycleAction::Receive(0),
            CycleAction::Receive(1),
            CycleAction::Run,
            CycleAction::Send(0, 0),
            CycleAction::Send(0, 1),
            CycleAction::Send(2, 0),
            CycleAction::Done(Ok(())),
        ]
    );
    // A second cycle goes the same way.
    assert_eq!(run_cycle(&mut cycle, Ok(true), None).len(), 7);
}

#[test]
fn cycle_stops_at_unconnected_input() {
    let mut cycle = NodeCycle::new(vec![true, false], vec![1], false);
    assert!(!cycle.is_connected());
    let actions = run_cycle(&mut cycle, Ok(true), None);
    assert_eq!(
        actions,
        vec![CycleAction::Receive(0), CycleAction::Done(Err(NodeError::PermanentError))]
    );
}

#[test]
fn cycle_passes_on_run_error() {
    let mut cycle = NodeCycle::new(vec![], vec![1], false);
    let actions = run_cycle(&mut cycle, Err(NodeError::DataEnd), None);
    assert_eq!(actions, vec![CycleAction::Run, CycleAction::Done(Err(NodeError::DataEnd))]);
}

#[test]
fn cycle_stops_at_failed_send() {
    let mut cycle = NodeCycle::new(vec![], vec![3], false);
    let actions = run_cycle(&mut cycle, Ok(true), Some(1));
    assert_eq!(
        actions,
        vec![
            CycleAction::Run,
            CycleAction::Send(0, 0),
            CycleAction::Send(0, 1),
            CycleAction::Done(Err(NodeError::CommError)),
        ]
    );
}

#[test]
fn aggregating_cycle_sends_only_results() {
    let mut cycle = NodeCycle::new(vec![true], vec![1], true);
    let actions = run_cycle(&mut cycle, Ok(false), None);
    assert_eq!(actions, vec![CycleAction::Receive(0), CycleAction::Run, CycleAction::Done(Ok(()))]);
    let actions = run_cycle(&mut cycle, Ok(true), None);
    assert_eq!(
        actions,
        vec![CycleAction::Receive(0), CycleAction::Run, CycleAction::Send(0, 0), CycleAction::Done(Ok(()))]
    );
}

#[test]
fn sink_with_no_outputs_finishes_after_run() {
    let mut cycle = NodeCycle::new(vec![true], vec![], false);
    let actions = run_cycle(&mut cycle, Ok(true), None);
    assert_eq!(actions, vec![CycleAction::Receive(0), CycleAction::Run, CycleAction::Done(Ok(()))]);
}

#[test]
fn error_texts() {
    assert_eq!(NodeError::DataError.to_string(), "Node error: unable to access data");
    assert_eq!(NodeError::PermanentError.to_string(), "Node error: unable to continue executing node");
    assert_eq!(NodeError::DataEnd.to_string(), "Node error: end of data source");
    assert_eq!(NodeError::CommError.to_string(), "Node error: unable to establish comm channel");
    assert_eq!(MathError::ConvertError.to_string(), "Math error: Type conversion from generic failed");
    assert_eq!(
        MathError::InvalidRolloffError.to_string(),
        "Math error: Invalid rolloff parameter, must be on interval [0.0, 1.0]"
    );
}
