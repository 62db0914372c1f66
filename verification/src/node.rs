//! Errors, the common interface of processing nodes, and the protocol that
//! one run of a node follows.
//!
//! A node has input channels, state, and output channels, each output
//! possibly fanned out to several receivers. One cycle of a node receives a
//! value from every input in order, runs the node's computation on them, and
//! sends the result to every receiver of every output in order. An
//! unconnected input stops the cycle with `PermanentError`, a failed
//! computation stops it with its own error, and a failed send stops it with
//! `CommError`. An aggregating node sends only when its computation produced
//! a value. The channel operations and the computation are performed by the
//! caller; `NodeCycle` decides, after each of them, what comes next.

use vstd::prelude::*;

verus! {

/// The ways in which running a node can fail.
#[derive(Clone, Copy, Debug, PartialEq, Eq)]
pub enum NodeError {
    DataError,
    PermanentError,
    DataEnd,
    CommError,
}

/// The text that describes a node error.
pub open spec fn node_error_text(e: NodeError) -> Seq<char> {
    match e {
        NodeError::DataError => "Node error: unable to access data"@,
        NodeError::PermanentError => "Node error: unable to continue executing node"@,
        NodeError::DataEnd => "Node error: end of data source"@,
        NodeError::CommError => "Node error: unable to establish comm channel"@,
    }
}

impl NodeError {
    /// Describes the error for people.
    pub fn to_string(&self) -> (r: String)
        ensures
            r@ == node_error_text(*self),
    {
        match self {
            NodeError::DataError => "Node error: unable to access data".to_owned(),
            NodeError::PermanentError => "Node error: unable to continue executing node".to_owned(),
            NodeError::DataEnd => "Node error: end of data source".to_owned(),
            NodeError::CommError => "Node error: unable to establish comm channel".to_owned(),
        }
    }
}

/// The interface that every processing node offers to the code that drives
/// it: run forever, run once, and tell whether all inputs are connected.
pub trait Node: Send {
    fn start(&mut self);

    fn call(&mut self) -> Result<(), NodeError>;

    fn is_connected(&self) -> bool;
}

/// What the caller does next in a node cycle.
#[derive(Clone, Copy, Debug, PartialEq, Eq)]
pub enum CycleAction {
    /// Receive a value from this input.
    Receive(usize),
    /// Run the node's computation on the values received.
    Run,
    /// Send the result to this receiver of this output.
    Send(usize, usize),
    /// The cycle is over, with this outcome.
    Done(Result<(), NodeError>),
}

/// What happened to the last action.
#[derive(Clone, Copy, Debug, PartialEq, Eq)]
pub enum CycleEvent {
    /// The value was received.
    Received,
    /// The computation finished: with an error, or with whether it produced
    /// a value to send (always true for a node that does not aggregate).
    RunFinished(Result<bool, NodeError>),
    /// The send succeeded or failed.
    Sent(bool),
}

/// Where a cycle stands.
#[derive(Clone, Copy, Debug, PartialEq, Eq)]
pub enum CyclePhase {
    Idle,
    Receiving(usize),
    Running,
    Sending(usize, usize),
}

/// The first receiver at or after receiver `c` of output `f`, in output
/// order and then receiver order.
pub open spec fn next_target(fanout: Seq<usize>, f: int, c: int) -> Option<(usize, usize)>
    decreases fanout.len() - f,
{
    if f < 0 || f >= fanout.len() {
        None
    } else if c < fanout[f] {
        Some((f as usize, c as usize))
    } else {
        next_target(fanout, f + 1, 0)
    }
}

/// The action after the inputs from `i` on: receive the next connected
/// input, stop at an unconnected one, or run once all are received.
pub open spec fn receive_from(connected: Seq<bool>, i: int) -> CycleAction {
    if i >= connected.len() {
        CycleAction::Run
    } else if connected[i] {
        CycleAction::Receive(i as usize)
    } else {
        CycleAction::Done(Err(NodeError::PermanentError))
    }
}

/// The action for the send targets from `(f, c)` on.
pub open spec fn send_from(fanout: Seq<usize>, f: int, c: int) -> CycleAction {
    match next_target(fanout, f, c) {
        Some((g, d)) => CycleAction::Send(g, d),
        None => CycleAction::Done(Ok(())),
    }
}

/// The phase that an action leads to.
pub open spec fn phase_of(a: CycleAction) -> CyclePhase {
    match a {
        CycleAction::Receive(i) => CyclePhase::Receiving(i),
        CycleAction::Run => CyclePhase::Running,
        CycleAction::Send(f, c) => CyclePhase::Sending(f, c),
        CycleAction::Done(_) => CyclePhase::Idle,
    }
}

/// Whether `ev` is a possible outcome of what `phase` asked for.
pub open spec fn event_fits(phase: CyclePhase, ev: CycleEvent) -> bool {
    match phase {
        CyclePhase::Idle => false,
        CyclePhase::Receiving(_) => ev is Received,
        CyclePhase::Running => ev is RunFinished,
        CyclePhase::Sending(_, _) => ev is Sent,
    }
}

/// The action that follows `ev` in `phase`.
pub open spec fn cycle_next(
    connected: Seq<bool>,
    fanout: Seq<usize>,
    aggregate: bool,
    phase: CyclePhase,
    ev: CycleEvent,
) -> CycleAction {
    match (phase, ev) {
        (CyclePhase::Receiving(i), CycleEvent::Received) => receive_from(connected, i + 1),
        (CyclePhase::Running, CycleEvent::RunFinished(Err(e))) => CycleAction::Done(Err(e)),
        (CyclePhase::Running, CycleEvent::RunFinished(Ok(produced))) => if aggregate && !produced {
            CycleAction::Done(Ok(()))
        } else {
            send_from(fanout, 0, 0)
        },
        (CyclePhase::Sending(f, c), CycleEvent::Sent(true)) => send_from(fanout, f as int, c + 1),
        (CyclePhase::Sending(_, _), CycleEvent::Sent(false)) => CycleAction::Done(Err(NodeError::CommError)),
        _ => CycleAction::Done(Err(NodeError::PermanentError)),
    }
}

/// The decisions of node cycles for a node with the given connections.
pub struct NodeCycle {
    connected: Vec<bool>,
    fanout: Vec<usize>,
    aggregate: bool,
    phase: CyclePhase,
}

impl NodeCycle {
    #[verifier::type_invariant]
    spec fn well_formed(self) -> bool {
        match self.phase {
            CyclePhase::Receiving(i) => i < self.connected@.len(),
            CyclePhase::Sending(f, c) => f < self.fanout@.len() && c < self.fanout@[f as int],
            _ => true,
        }
    }

    /// For each input, whether it is connected.
    pub closed spec fn inputs(&self) -> Seq<bool> {
        self.connected@
    }

    /// For each output, its number of receivers.
    pub closed spec fn outputs(&self) -> Seq<usize> {
        self.fanout@
    }

    /// Whether the node sends only when its computation produced a value.
    pub closed spec fn aggregates(&self) -> bool {
        self.aggregate
    }

    /// Where the current cycle stands.
    pub closed spec fn phase(&self) -> CyclePhase {
        self.phase
    }

    /// A protocol for a node with these inputs and outputs, between cycles.
    pub fn new(connected: Vec<bool>, fanout: Vec<usize>, aggregate: bool) -> (r: Self)
        ensures
            r.inputs() == connected@,
            r.outputs() == fanout@,
            r.aggregates() == aggregate,
            r.phase() == CyclePhase::Idle,
    {
        NodeCycle { connected, fanout, aggregate, phase: CyclePhase::Idle }
    }

    /// Whether every input is connected.
    pub fn is_connected(&self) -> (r: bool)
        ensures
            r == (forall|i: int| 0 <= i < self.inputs().len() ==> self.inputs()[i]),
    {
        let mut i: usize = 0;
        while i < self.connected.len()
            invariant
                0 <= i <= self.connected.len(),
                forall|j: int| 0 <= j < i ==> self.connected@[j],
            decreases self.connected.len() - i,
        {
            if !self.connected[i] {
                assert(!self.inputs()[i as int]);
                return false;
            }
            i = i + 1;
        }
        true
    }

    fn receive_action(&self, i: usize) -> (r: CycleAction)
        ensures
            r == receive_from(self.inputs(), i as int),
            r matches CycleAction::Receive(j) ==> j < self.connected@.len(),
            !(r is Send),
    {
        if i >= self.connected.len() {
            CycleAction::Run
        } else if self.connected[i] {
            CycleAction::Receive(i)
        } else {
            CycleAction::Done(Err(NodeError::PermanentError))
        }
    }

    fn send_action(&self, f: usize, c: usize) -> (r: CycleAction)
        ensures
            r == send_from(self.outputs(), f as int, c as int),
            r matches CycleAction::Send(g, d) ==> g < self.fanout@.len() && d < self.fanout@[g as int],
            !(r is Receive),
    {
        let n = self.fanout.len();
        let mut g = f;
        let mut d = c;
        if g < n && d >= self.fanout[g] {
            g = g + 1;
            d = 0;
        }
        while g < n && self.fanout[g] == 0
            invariant
                n == self.fanout.len(),
                f <= g,
                d == 0 || (g == f && d == c),
                g < n && d != 0 ==> d < self.fanout@[g as int],
                next_target(self.outputs(), f as int, c as int) == next_target(self.outputs(), g as int, d as int),
            decreases n - g,
        {
            g = g + 1;
            d = 0;
        }
        if g < n {
            CycleAction::Send(g, d)
        } else {
            CycleAction::Done(Ok(()))
        }
    }

    /// Starts a cycle: receive the first input, or stop if it is not
    /// connected, or run at once if the node has no inputs.
    pub fn begin(&mut self) -> (r: CycleAction)
        ensures
            r == receive_from(old(self).inputs(), 0),
            final(self).phase() == phase_of(r),
            final(self).inputs() == old(self).inputs(),
            final(self).outputs() == old(self).outputs(),
            final(self).aggregates() == old(self).aggregates(),
    {
        let a = self.receive_action(0);
        self.phase = match a {
            CycleAction::Receive(i) => CyclePhase::Receiving(i),
            CycleAction::Run => CyclePhase::Running,
            CycleAction::Send(f, c) => CyclePhase::Sending(f, c),
            CycleAction::Done(_) => CyclePhase::Idle,
        };
        a
    }

    /// Takes the outcome of the last action and returns the next one.
    pub fn step(&mut self, ev: CycleEvent) -> (r: CycleAction)
        requires
            event_fits(old(self).phase(), ev),
        ensures
            r == cycle_next(old(self).inputs(), old(self).outputs(), old(self).aggregates(), old(self).phase(), ev),
            final(self).phase() == phase_of(r),
            final(self).inputs() == old(self).inputs(),
            final(self).outputs() == old(self).outputs(),
            final(self).aggregates() == old(self).aggregates(),
    {
        proof {
            use_type_invariant(&*self);
        }
        let a = match (self.phase, ev) {
            (CyclePhase::Receiving(i), CycleEvent::Received) => {
                if i < self.connected.len() {
                    self.receive_action(i + 1)
                } else {
                    CycleAction::Run
                }
            },
            (CyclePhase::Running, CycleEvent::RunFinished(Err(e))) => CycleAction::Done(Err(e)),
            (CyclePhase::Running, CycleEvent::RunFinished(Ok(produced))) => {
                if self.aggregate && !produced {
                    CycleAction::Done(Ok(()))
                } else {
                    self.send_action(0, 0)
                }
            },
            (CyclePhase::Sending(f, c), CycleEvent::Sent(true)) => {
                self.send_action(f, c + 1)
            },
            (CyclePhase::Sending(_, _), CycleEvent::Sent(false)) => CycleAction::Done(Err(NodeError::CommError)),
            _ => CycleAction::Done(Err(NodeError::PermanentError)),
        };
        self.phase = match a {
            CycleAction::Receive(i) => CyclePhase::Receiving(i),
            CycleAction::Run => CyclePhase::Running,
            CycleAction::Send(f, c) => CyclePhase::Sending(f, c),
            CycleAction::Done(_) => CyclePhase::Idle,
        };
        a
    }
}

/// Every receiver of the outputs from output `f` on, in output order and
/// then receiver order.
pub open spec fn targets_from(fanout: Seq<usize>, f: int) -> Seq<(usize, usize)>
    decreases fanout.len() - f,
{
    if f < 0 || f >= fanout.len() {
        Seq::empty()
    } else {
        Seq::new(fanout[f] as nat, |c: int| (f as usize, c as usize)) + targets_from(fanout, f + 1)
    }
}

/// The action that sends to receiver `k` of `ts`, or ends the cycle when
/// there is none.
pub open spec fn send_to_index(ts: Seq<(usize, usize)>, k: int) -> CycleAction {
    if 0 <= k < ts.len() {
        CycleAction::Send(ts[k].0, ts[k].1)
    } else {
        CycleAction::Done(Ok(()))
    }
}

proof fn lemma_targets_split(fanout: Seq<usize>, f0: int)
    requires
        0 <= f0 < fanout.len(),
    ensures
        targets_from(fanout, f0) == Seq::new(fanout[f0] as nat, |c: int| (f0 as usize, c as usize))
            + targets_from(fanout, f0 + 1),
{
}

proof fn lemma_targets_head(fanout: Seq<usize>, f0: int)
    requires
        0 <= f0 <= fanout.len(),
    ensures
        send_from(fanout, f0, 0) == send_to_index(targets_from(fanout, f0), 0),
    decreases fanout.len() - f0,
{
    if f0 < fanout.len() {
        lemma_targets_split(fanout, f0);
        lemma_targets_head(fanout, f0 + 1);
        let b = Seq::new(fanout[f0] as nat, |c: int| (f0 as usize, c as usize));
        let r = targets_from(fanout, f0 + 1);
        if b.len() == 0 {
            assert(targets_from(fanout, f0) =~= r);
        } else {
            assert(targets_from(fanout, f0)[0] == b[0]);
        }
    }
}

proof fn lemma_targets_step(fanout: Seq<usize>, f0: int, k: int)
    requires
        fanout.len() <= usize::MAX,
        0 <= f0 <= fanout.len(),
        0 <= k < targets_from(fanout, f0).len(),
    ensures
        f0 <= targets_from(fanout, f0)[k].0 < fanout.len(),
        targets_from(fanout, f0)[k].1 < fanout[targets_from(fanout, f0)[k].0 as int],
        send_from(fanout, targets_from(fanout, f0)[k].0 as int, targets_from(fanout, f0)[k].1 + 1)
            == send_to_index(targets_from(fanout, f0), k + 1),
    decreases fanout.len() - f0,
{
    lemma_targets_split(fanout, f0);
    let b = Seq::new(fanout[f0] as nat, |c: int| (f0 as usize, c as usize));
    let r = targets_from(fanout, f0 + 1);
    let t = targets_from(fanout, f0);
    if k < b.len() {
        assert(t[k] == (f0 as usize, k as usize));
        if k + 1 < b.len() {
            assert(t[k + 1] == (f0 as usize, (k + 1) as usize));
        } else {
            assert(send_from(fanout, f0, k + 1) == send_from(fanout, f0 + 1, 0));
            lemma_targets_head(fanout, f0 + 1);
            if r.len() > 0 {
                assert(t[k + 1] == r[0]);
            }
        }
    } else {
        lemma_targets_step(fanout, f0 + 1, k - b.len());
        assert(t[k] == r[k - b.len()]);
        if k + 1 < t.len() {
            assert(t[k + 1] == r[k + 1 - b.len()]);
        }
    }
}

/// A successful computation is sent to every receiver of every output
/// exactly once, outputs in order and receivers in order: the sends of a
/// cycle whose sends succeed follow `targets_from(fanout, 0)`, and the cycle
/// ends successfully after the last of them.
pub proof fn lemma_sends_reach_every_receiver_once(fanout: Seq<usize>)
    requires
        fanout.len() <= usize::MAX,
    ensures
        send_from(fanout, 0, 0) == send_to_index(targets_from(fanout, 0), 0),
        forall|k: int|
            0 <= k < targets_from(fanout, 0).len() ==> send_from(
                fanout,
                #[trigger] targets_from(fanout, 0)[k].0 as int,
                targets_from(fanout, 0)[k].1 + 1,
            ) == send_to_index(targets_from(fanout, 0), k + 1),
{
    lemma_targets_head(fanout, 0);
    assert forall|k: int| 0 <= k < targets_from(fanout, 0).len() implies send_from(
        fanout,
        #[trigger] targets_from(fanout, 0)[k].0 as int,
        targets_from(fanout, 0)[k].1 + 1,
    ) == send_to_index(targets_from(fanout, 0), k + 1) by {
        lemma_targets_step(fanout, 0, k);
    }
}

/// The inputs are received in order: after input `i` the cycle receives
/// input `i + 1` when it is connected, stops with `PermanentError` when it
/// is not, and runs after the last input.
pub proof fn lemma_inputs_in_order(connected: Seq<bool>, fanout: Seq<usize>, aggregate: bool, i: usize)
    requires
        i < connected.len(),
    ensures
        cycle_next(connected, fanout, aggregate, CyclePhase::Receiving(i), CycleEvent::Received) == (if i + 1
            == connected.len() {
            CycleAction::Run
        } else if connected[i + 1] {
            CycleAction::Receive((i + 1) as usize)
        } else {
            CycleAction::Done(Err(NodeError::PermanentError))
        }),
{
}

/// Whether receiver `a` comes before receiver `b`: by output, then by
/// receiver.
pub open spec fn comes_before(a: (usize, usize), b: (usize, usize)) -> bool {
    a.0 < b.0 || (a.0 == b.0 && a.1 < b.1)
}

/// Whether output `f` has a receiver `c`.
pub open spec fn is_receiver(fanout: Seq<usize>, f: int, c: int) -> bool {
    0 <= f < fanout.len() && 0 <= c < fanout[f]
}

proof fn lemma_targets_shape(fanout: Seq<usize>, f0: int)
    requires
        fanout.len() <= usize::MAX,
        0 <= f0 <= fanout.len(),
    ensures
        forall|k: int|
            0 <= k < targets_from(fanout, f0).len() ==> f0 <= #[trigger] targets_from(fanout, f0)[k].0 < fanout.len()
                && targets_from(fanout, f0)[k].1 < fanout[targets_from(fanout, f0)[k].0 as int],
        forall|k1: int, k2: int|
            0 <= k1 < k2 < targets_from(fanout, f0).len() ==> comes_before(
                #[trigger] targets_from(fanout, f0)[k1],
                #[trigger] targets_from(fanout, f0)[k2],
            ),
        forall|f: int, c: int|
            f0 <= f && #[trigger] is_receiver(fanout, f, c) ==> exists|k: int|
                0 <= k < targets_from(fanout, f0).len() && #[trigger] targets_from(fanout, f0)[k] == (
                f as usize,
                c as usize,
            ),
    decreases fanout.len() - f0,
{
    if f0 < fanout.len() {
        lemma_targets_split(fanout, f0);
        lemma_targets_shape(fanout, f0 + 1);
        let b = Seq::new(fanout[f0] as nat, |c: int| (f0 as usize, c as usize));
        let r = targets_from(fanout, f0 + 1);
        let t = targets_from(fanout, f0);
        assert(t == b + r);
        assert forall|k: int| 0 <= k < t.len() implies f0 <= #[trigger] t[k].0 < fanout.len() && t[k].1 < fanout[t[k].0 as int] by {
            if k >= b.len() {
                assert(t[k] == r[k - b.len()]);
            }
        }
        assert forall|k1: int, k2: int| 0 <= k1 < k2 < t.len() implies comes_before(#[trigger] t[k1], #[trigger] t[k2]) by {
            if k2 < b.len() {
            } else if k1 < b.len() {
                assert(t[k2] == r[k2 - b.len()]);
            } else {
                assert(t[k1] == r[k1 - b.len()]);
                assert(t[k2] == r[k2 - b.len()]);
            }
        }
        assert forall|f: int, c: int| f0 <= f && #[trigger] is_receiver(fanout, f, c) implies exists|k: int|
            0 <= k < t.len() && #[trigger] t[k] == (f as usize, c as usize) by {
            if f == f0 {
                assert(t[c] == (f as usize, c as usize));
            } else {
                let k2 = choose|k: int| 0 <= k < r.len() && #[trigger] r[k] == (f as usize, c as usize);
                assert(t[b.len() + k2] == r[k2]);
            }
        }
    }
}

/// One cycle sends the node's result to every receiver of every output
/// exactly once, outputs in order and receivers in order, and stops at the
/// first failed send. Here `targets_from(fanout, 0)` is the list of all
/// receivers `(output, receiver)`, each once, in that order; after the run
/// the cycle sends to its first entry, and after each successful send to an
/// entry it sends to the next entry, or ends successfully after the last.
pub proof fn lemma_cycle_sends_to_every_receiver(
    connected: Seq<bool>,
    fanout: Seq<usize>,
    aggregate: bool,
    produced: bool,
)
    requires
        fanout.len() <= usize::MAX,
    ensures
        forall|k: int|
            0 <= k < targets_from(fanout, 0).len() ==> #[trigger] targets_from(fanout, 0)[k].0 < fanout.len()
                && targets_from(fanout, 0)[k].1 < fanout[targets_from(fanout, 0)[k].0 as int],
        forall|k1: int, k2: int|
            0 <= k1 < k2 < targets_from(fanout, 0).len() ==> comes_before(
                #[trigger] targets_from(fanout, 0)[k1],
                #[trigger] targets_from(fanout, 0)[k2],
            ),
        forall|f: int, c: int|
            #[trigger] is_receiver(fanout, f, c) ==> exists|k: int|
                0 <= k < targets_from(fanout, 0).len() && #[trigger] targets_from(fanout, 0)[k] == (
                f as usize,
                c as usize,
            ),
        !aggregate || produced ==> cycle_next(
            connected,
            fanout,
            aggregate,
            CyclePhase::Running,
            CycleEvent::RunFinished(Ok(produced)),
        ) == send_to_index(targets_from(fanout, 0), 0),
        forall|k: int|
            0 <= k < targets_from(fanout, 0).len() ==> cycle_next(
                connected,
                fanout,
                aggregate,
                CyclePhase::Sending(#[trigger] targets_from(fanout, 0)[k].0, targets_from(fanout, 0)[k].1),
                CycleEvent::Sent(true),
            ) == send_to_index(targets_from(fanout, 0), k + 1),
        forall|k: int|
            0 <= k < targets_from(fanout, 0).len() ==> cycle_next(
                connected,
                fanout,
                aggregate,
                CyclePhase::Sending(#[trigger] targets_from(fanout, 0)[k].0, targets_from(fanout, 0)[k].1),
                CycleEvent::Sent(false),
            ) == CycleAction::Done(Err(NodeError::CommError)),
{
    lemma_targets_shape(fanout, 0);
    lemma_sends_reach_every_receiver_once(fanout);
    let ts = targets_from(fanout, 0);
    assert forall|k: int| 0 <= k < ts.len() implies cycle_next(
        connected,
        fanout,
        aggregate,
        CyclePhase::Sending(#[trigger] ts[k].0, ts[k].1),
        CycleEvent::Sent(true),
    ) == send_to_index(ts, k + 1) by {
        assert(send_from(fanout, ts[k].0 as int, ts[k].1 + 1) == send_to_index(ts, k + 1));
    }
}

} // verus!
