//! A source node around an RTL-SDR tuner that reads a fixed number of
//! samples per run. The reads themselves are made by the caller; this node
//! decides what is asked for and what is passed on.

use vstd::prelude::*;
use crate::hardware::rtlsdr_radio::{init_sequence, next_step, RadioCommand, RadioStep, RTLSDR};

verus! {

/// An RTL-SDR tuner that produces `num_samples` bytes of samples per run.
pub struct RTLSDRNode<D> {
    pub sdr: RTLSDR<D>,
    pub num_samples: usize,
}

impl<D> RTLSDRNode<D> {
    /// The tuner controller.
    pub open spec fn radio(&self) -> RTLSDR<D> {
        self.sdr
    }

    /// The number of sample bytes read per run.
    pub open spec fn batch_size(&self) -> nat {
        self.num_samples as nat
    }

    /// Builds a node around a tuner.
    pub fn new(sdr: RTLSDR<D>, num_samples: usize) -> (r: Self)
        ensures
            r.radio() == sdr,
            r.batch_size() == num_samples,
    {
        RTLSDRNode { sdr, num_samples }
    }

    /// The number of sample bytes to read per run.
    pub fn num_samples(&self) -> (r: usize)
        ensures
            r == self.batch_size(),
    {
        self.num_samples
    }

    /// Starts configuring the tuner; see `RTLSDR::init_radio`. Configure the
    /// tuner before the first read, or the reads fail and give no samples.
    pub fn init_radio<E>(&mut self, freq: u32, sample_rate: u32, gain: i32) -> (r: RadioStep<E>)
        ensures
            final(self).batch_size() == old(self).batch_size(),
            final(self).radio().dev() == old(self).radio().dev(),
            final(self).radio().plan() == init_sequence(freq, sample_rate, gain),
            final(self).radio().issued() == 1,
            r == RadioStep::<E>::Issue(RadioCommand::SetCenterFreq(freq)),
    {
        self.sdr.init_radio(freq, sample_rate, gain)
    }

    /// Starts switching the automatic gain control; see `RTLSDR::set_agc`.
    pub fn set_agc<E>(&mut self, agc_on: bool) -> (r: RadioStep<E>)
        ensures
            final(self).batch_size() == old(self).batch_size(),
            final(self).radio().dev() == old(self).radio().dev(),
            final(self).radio().plan() == seq![RadioCommand::SetAgcMode(agc_on)],
            final(self).radio().issued() == 1,
            r == RadioStep::<E>::Issue(RadioCommand::SetAgcMode(agc_on)),
    {
        self.sdr.set_agc(agc_on)
    }

    /// Takes the outcome of the last device command of the request in
    /// progress; see `RTLSDR::advance`. A failure ends the request with that
    /// failure, and no later command is issued; a success yields the next
    /// command, or ends the request successfully after the last one.
    pub fn advance<E>(&mut self, reply: Result<(), E>) -> (r: RadioStep<E>)
        ensures
            (r, final(self).radio().issued()) == next_step(old(self).radio().plan(), old(self).radio().issued(), reply),
            final(self).batch_size() == old(self).batch_size(),
            final(self).radio().dev() == old(self).radio().dev(),
            match reply {
                Err(e) => r == RadioStep::<E>::Finished(Err(e)) && final(self).radio().is_idle(),
                Ok(()) => if old(self).radio().issued() < old(self).radio().plan().len() {
                    &&& r == RadioStep::<E>::Issue(old(self).radio().plan()[old(self).radio().issued() as int])
                    &&& final(self).radio().plan() == old(self).radio().plan()
                    &&& final(self).radio().issued() == old(self).radio().issued() + 1
                } else {
                    r == RadioStep::<E>::Finished(Ok(())) && final(self).radio().is_idle()
                },
            },
    {
        self.sdr.advance(reply)
    }

    /// The batch that a run sends on, given the outcome of reading
    /// `num_samples` bytes from the device: the bytes read, or an empty
    /// batch when the read failed.
    pub fn get_samples<E>(&self, read: Result<Vec<u8>, E>) -> (r: Vec<u8>)
        ensures
            match read {
                Ok(v) => r == v,
                Err(_) => r@.len() == 0,
            },
    {
        self.sdr.received_samples(read)
    }
}

/// A node for the tuner that opening it gave, reading `num_samples` bytes
/// per run, or the error that opening it failed with.
pub fn rtlsdr<D, E>(opened: Result<D, E>, num_samples: usize) -> (r: Result<RTLSDRNode<D>, E>)
    ensures
        match opened {
            Ok(d) => r matches Ok(n) && n.radio().dev() == d && n.radio().is_idle() && n.batch_size()
                == num_samples,
            Err(e) => r == Err::<RTLSDRNode<D>, E>(e),
        },
{
    match opened {
        Ok(device) => Ok(RTLSDRNode::new(RTLSDR::from_device(device), num_samples)),
        Err(e) => Err(e),
    }
}

} // verus!
