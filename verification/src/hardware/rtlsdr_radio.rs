//! Control logic of an RTL-SDR tuner.
//!
//! The tuner is driven by a short sequence of device commands per request
//! (configure, switch the gain control, close). The device calls themselves
//! are made by the caller, which holds the device in `RTLSDR::device`: a
//! request returns the first command to perform, and each reply, handed to
//! `advance`, yields the next command or the outcome. The first failing
//! command ends the request with its error; the remaining commands are not
//! issued.

use vstd::prelude::*;

verus! {

/// A command for the tuner device.
#[derive(Clone, Copy, Debug, PartialEq, Eq)]
pub enum RadioCommand {
    SetCenterFreq(u32),
    SetSampleRate(u32),
    SetTunerGain(i32),
    ResetBuffer,
    SetAgcMode(bool),
    Close,
}

/// What the controller asks of the caller next.
#[derive(Debug, PartialEq, Eq)]
pub enum RadioStep<E> {
    /// Perform this command on the device and report its outcome.
    Issue(RadioCommand),
    /// The request is over, with this outcome.
    Finished(Result<(), E>),
}

/// The commands that configure the tuner, in the order they are issued.
pub open spec fn init_sequence(freq: u32, sample_rate: u32, gain: i32) -> Seq<RadioCommand> {
    seq![
        RadioCommand::SetCenterFreq(freq),
        RadioCommand::SetSampleRate(sample_rate),
        RadioCommand::SetTunerGain(gain),
        RadioCommand::ResetBuffer,
    ]
}

/// An RTL-SDR tuner: the open device and the request in progress.
pub struct RTLSDR<D> {
    pub device: D,
    plan: Vec<RadioCommand>,
    issued: usize,
}

impl<D> RTLSDR<D> {
    /// The device that the commands are meant for.
    pub closed spec fn dev(&self) -> D {
        self.device
    }

    /// The commands of the request in progress; empty when idle.
    pub closed spec fn plan(&self) -> Seq<RadioCommand> {
        self.plan@
    }

    /// How many commands of the request have been issued.
    pub closed spec fn issued(&self) -> nat {
        self.issued as nat
    }

    /// Whether no request is in progress.
    pub open spec fn is_idle(&self) -> bool {
        self.plan().len() == 0 && self.issued() == 0
    }

    /// A controller for an opened device, with no request in progress.
    pub fn from_device(device: D) -> (r: Self)
        ensures
            r.dev() == device,
            r.is_idle(),
    {
        RTLSDR { device, plan: Vec::new(), issued: 0 }
    }

    /// Starts a request made of the commands `plan` and returns the first.
    fn start(&mut self, plan: Vec<RadioCommand>) -> (r: RadioCommand)
        requires
            plan.len() > 0,
        ensures
            final(self).dev() == old(self).dev(),
            final(self).plan() == plan@,
            final(self).issued() == 1,
            r == plan@[0],
    {
        let first = plan[0];
        self.plan = plan;
        self.issued = 1;
        first
    }

    /// Starts configuring the tuner: centre frequency, sample rate, tuner
    /// gain, then a reset of the sample buffer. Returns the first command;
    /// any request in progress is abandoned.
    pub fn init_radio<E>(&mut self, freq: u32, sample_rate: u32, gain: i32) -> (r: RadioStep<E>)
        ensures
            final(self).dev() == old(self).dev(),
            final(self).plan() == init_sequence(freq, sample_rate, gain),
            final(self).issued() == 1,
            r == RadioStep::<E>::Issue(RadioCommand::SetCenterFreq(freq)),
    {
        let mut plan: Vec<RadioCommand> = Vec::new();
        plan.push(RadioCommand::SetCenterFreq(freq));
        plan.push(RadioCommand::SetSampleRate(sample_rate));
        plan.push(RadioCommand::SetTunerGain(gain));
        plan.push(RadioCommand::ResetBuffer);
        assert(plan@ =~= init_sequence(freq, sample_rate, gain));
        RadioStep::Issue(self.start(plan))
    }

    /// Starts switching the automatic gain control on or off and returns the
    /// command to issue.
    pub fn set_agc<E>(&mut self, agc_on: bool) -> (r: RadioStep<E>)
        ensures
            final(self).dev() == old(self).dev(),
            final(self).plan() == seq![RadioCommand::SetAgcMode(agc_on)],
            final(self).issued() == 1,
            r == RadioStep::<E>::Issue(RadioCommand::SetAgcMode(agc_on)),
    {
        let mut plan: Vec<RadioCommand> = Vec::new();
        plan.push(RadioCommand::SetAgcMode(agc_on));
        assert(plan@ =~= seq![RadioCommand::SetAgcMode(agc_on)]);
        RadioStep::Issue(self.start(plan))
    }

    /// Starts closing the device and returns the command to issue.
    pub fn teardown<E>(&mut self) -> (r: RadioStep<E>)
        ensures
            final(self).dev() == old(self).dev(),
            final(self).plan() == seq![RadioCommand::Close],
            final(self).issued() == 1,
            r == RadioStep::<E>::Issue(RadioCommand::Close),
    {
        let mut plan: Vec<RadioCommand> = Vec::new();
        plan.push(RadioCommand::Close);
        assert(plan@ =~= seq![RadioCommand::Close]);
        RadioStep::Issue(self.start(plan))
    }

    /// Takes the outcome of the last command issued. A failure ends the
    /// request with that failure; a success yields the next command of the
    /// request, or ends it successfully after the last one. When the request
    /// ends the controller becomes idle.
    pub fn advance<E>(&mut self, reply: Result<(), E>) -> (r: RadioStep<E>)
        ensures
            (r, final(self).issued()) == next_step(old(self).plan(), old(self).issued(), reply),
            final(self).dev() == old(self).dev(),
            match reply {
                Err(e) => r == RadioStep::<E>::Finished(Err(e)) && final(self).is_idle(),
                Ok(()) => if old(self).issued() < old(self).plan().len() {
                    &&& r == RadioStep::<E>::Issue(old(self).plan()[old(self).issued() as int])
                    &&& final(self).plan() == old(self).plan()
                    &&& final(self).issued() == old(self).issued() + 1
                } else {
                    r == RadioStep::<E>::Finished(Ok(())) && final(self).is_idle()
                },
            },
    {
        match reply {
            Err(e) => {
                self.plan = Vec::new();
                self.issued = 0;
                RadioStep::Finished(Err(e))
            },
            Ok(()) => {
                if self.issued < self.plan.len() {
                    let cmd = self.plan[self.issued];
                    self.issued = self.issued + 1;
                    RadioStep::Issue(cmd)
                } else {
                    self.plan = Vec::new();
                    self.issued = 0;
                    RadioStep::Finished(Ok(()))
                }
            },
        }
    }

    /// The samples of a read: what the device returned, or nothing when the
    /// read failed.
    pub fn received_samples<E>(&self, read: Result<Vec<u8>, E>) -> (r: Vec<u8>)
        ensures
            match read {
                Ok(v) => r == v,
                Err(_) => r@.len() == 0,
            },
    {
        match read {
            Ok(samp) => samp,
            Err(_) => Vec::new(),
        }
    }
}

/// A tuner controller for the device that opening it gave, or the error
/// that opening it failed with.
pub fn rtlsdr<D, E>(opened: Result<D, E>) -> (r: Result<RTLSDR<D>, E>)
    ensures
        match opened {
            Ok(d) => r matches Ok(s) && s.dev() == d && s.is_idle(),
            Err(e) => r == Err::<RTLSDR<D>, E>(e),
        },
{
    match opened {
        Ok(device) => Ok(RTLSDR::from_device(device)),
        Err(e) => Err(e),
    }
}

/// The controller's answer to `reply` when `issued` commands of `plan` have
/// been issued: the next step, and how many commands have then been issued
/// (none once the request is over).
pub open spec fn next_step<E>(plan: Seq<RadioCommand>, issued: nat, reply: Result<(), E>) -> (RadioStep<E>, nat) {
    match reply {
        Err(e) => (RadioStep::Finished(Err(e)), 0),
        Ok(()) => if issued < plan.len() {
            (RadioStep::Issue(plan[issued as int]), issued + 1)
        } else {
            (RadioStep::Finished(Ok(())), 0)
        },
    }
}

/// Driving a request whose commands are `plan`, `issued` of them issued so
/// far, with `replies[i]` the device's reply to the `i`-th command issued
/// from here on: how many commands were issued when the request ended, and
/// its outcome (`None` when the replies run out first).
pub open spec fn drive<E>(plan: Seq<RadioCommand>, issued: nat, replies: Seq<Result<(), E>>) -> (
    nat,
    Option<Result<(), E>>,
)
    decreases replies.len(),
{
    if replies.len() == 0 {
        (issued, None)
    } else {
        match next_step(plan, issued, replies[0]) {
            (RadioStep::Finished(res), _) => (issued, Some(res)),
            (RadioStep::Issue(_), n) => drive(plan, n, replies.drop_first()),
        }
    }
}

/// A request issues its commands in order and ends at the first failing
/// one with that failure, issuing no later command; when every command
/// succeeds it ends with `Ok` after all of them. Here the request has
/// issued `issued` of its commands and `replies` answers them from the last
/// one issued on.
pub proof fn lemma_request_outcome<E>(plan: Seq<RadioCommand>, issued: nat, replies: Seq<Result<(), E>>)
    requires
        1 <= issued <= plan.len(),
        replies.len() >= plan.len() - issued + 1,
    ensures
        (forall|i: int| 0 <= i <= plan.len() - issued ==> #[trigger] replies[i] is Ok) ==> drive(
            plan,
            issued,
            replies,
        ) == (plan.len(), Some(Ok::<(), E>(()))),
        forall|j: int|
            0 <= j <= plan.len() - issued && #[trigger] replies[j] is Err && (forall|i: int|
                0 <= i < j ==> #[trigger] replies[i] is Ok) ==> drive(plan, issued, replies) == (
            (issued + j) as nat,
            Some(replies[j]),
        ),
    decreases plan.len() - issued,
{
    let rest = replies.drop_first();
    if issued < plan.len() {
        lemma_request_outcome(plan, issued + 1, rest);
        assert forall|i: int| 0 <= i <= plan.len() - (issued + 1) implies rest[i] == replies[i + 1] by {}
        assert forall|j: int|
            0 <= j <= plan.len() - issued && #[trigger] replies[j] is Err && (forall|i: int|
                0 <= i < j ==> #[trigger] replies[i] is Ok) implies drive(plan, issued, replies) == (
            (issued + j) as nat,
            Some(replies[j]),
        ) by {
            if j > 0 {
                assert(replies[0] is Ok);
                assert(rest[j - 1] == replies[j]);
                assert forall|i: int| 0 <= i < j - 1 implies #[trigger] rest[i] is Ok by {
                    assert(rest[i] == replies[i + 1]);
                    assert(replies[i + 1] is Ok);
                }
            }
        }
        if forall|i: int| 0 <= i <= plan.len() - issued ==> #[trigger] replies[i] is Ok {
            assert(replies[0] is Ok);
            assert forall|i: int| 0 <= i <= plan.len() - (issued + 1) implies #[trigger] rest[i] is Ok by {
                assert(rest[i] == replies[i + 1]);
                assert(replies[i + 1] is Ok);
            }
        }
    } else {
        assert forall|j: int|
            0 <= j <= plan.len() - issued && #[trigger] replies[j] is Err && (forall|i: int|
                0 <= i < j ==> #[trigger] replies[i] is Ok) implies drive(plan, issued, replies) == (
            (issued + j) as nat,
            Some(replies[j]),
        ) by {
            assert(j == 0);
        }
        if forall|i: int| 0 <= i <= plan.len() - issued ==> #[trigger] replies[i] is Ok {
            assert(replies[0] is Ok);
        }
    }
}

} // verus!
