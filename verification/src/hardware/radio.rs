//! Generic interfaces to hardware that sends or receives samples, and the
//! nodes that drive them.

use vstd::prelude::*;
use crate::node::NodeError;
use std::marker::PhantomData;

verus! {

/// Hardware that can send samples on one of its outputs.
pub trait RadioTx<T> {
    /// Whether this radio, given `samples` to send on output `output_idx`,
    /// can end up as `after`: what sending does, as each implementation
    /// describes it. An implementation that describes nothing allows any
    /// outcome.
    open spec fn sent(&self, after: &Self, samples: Seq<T>, output_idx: usize) -> bool {
        true
    }

    /// Sends `samples` on output `output_idx`.
    fn send_samples(&mut self, samples: &[T], output_idx: usize)
        ensures
            old(self).sent(final(self), samples@, output_idx),
    ;
}

/// Hardware that can receive samples on one of its inputs.
pub trait RadioRx<T> {
    /// Whether this radio, asked for `num_samples` samples on input
    /// `input_idx`, can return `samples` and end up as `after`: what
    /// receiving does, as each implementation describes it. An
    /// implementation that describes nothing allows any outcome.
    open spec fn received(&self, after: &Self, num_samples: usize, input_idx: usize, samples: Seq<T>) -> bool {
        true
    }

    /// Receives up to `num_samples` samples from input `input_idx`.
    fn recv_samples(&mut self, num_samples: usize, input_idx: usize) -> (r: Vec<T>)
        ensures
            old(self).received(final(self), num_samples, input_idx, r@),
    ;
}

/// A node that sends each batch it runs on through a transmitter.
pub struct RadioTxNode<T, U> {
    radio: T,
    output_idx: usize,
    samples: PhantomData<U>,
}

impl<T: RadioTx<U>, U: Clone> RadioTxNode<T, U> {
    /// The output of the hardware that this node sends on.
    pub closed spec fn output_index(&self) -> nat {
        self.output_idx as nat
    }

    /// The transmitter that this node drives.
    pub closed spec fn radio(&self) -> T {
        self.radio
    }

    /// Builds a node that sends on output `output_idx` of `radio`.
    pub fn new(radio: T, output_idx: usize) -> (r: Self)
        ensures
            r.output_index() == output_idx,
            r.radio() == radio,
    {
        RadioTxNode { radio, output_idx, samples: PhantomData }
    }

    /// Hands a batch of samples to the transmitter, on the node's output.
    pub fn run(&mut self, samples: &[U]) -> (r: Result<(), NodeError>)
        ensures
            r is Ok,
            final(self).output_index() == old(self).output_index(),
            old(self).radio().sent(&final(self).radio(), samples@, old(self).output_index() as usize),
    {
        self.radio.send_samples(samples, self.output_idx);
        Ok(())
    }
}

/// A node that reads a batch from a receiver on each run.
pub struct RadioRxNode<T, U> {
    radio: T,
    input_idx: usize,
    num_samples: usize,
    samples: PhantomData<U>,
}

impl<T: RadioRx<U>, U: Clone> RadioRxNode<T, U> {
    /// The input of the hardware that this node reads.
    pub closed spec fn input_index(&self) -> nat {
        self.input_idx as nat
    }

    /// The number of samples asked for on each run.
    pub closed spec fn batch_size(&self) -> nat {
        self.num_samples as nat
    }

    /// The receiver that this node drives.
    pub closed spec fn radio(&self) -> T {
        self.radio
    }

    /// Builds a node that reads `num_samples` samples from input
    /// `input_idx` of `radio` on each run.
    pub fn new(radio: T, input_idx: usize, num_samples: usize) -> (r: Self)
        ensures
            r.input_index() == input_idx,
            r.batch_size() == num_samples,
            r.radio() == radio,
    {
        RadioRxNode { radio, input_idx, num_samples, samples: PhantomData }
    }

    /// Asks the receiver for a batch on the node's input and passes on what
    /// it returned.
    pub fn run(&mut self) -> (r: Result<Vec<U>, NodeError>)
        ensures
            r matches Ok(v) && old(self).radio().received(
                &final(self).radio(),
                old(self).batch_size() as usize,
                old(self).input_index() as usize,
                v@,
            ),
            final(self).input_index() == old(self).input_index(),
            final(self).batch_size() == old(self).batch_size(),
    {
        Ok(self.radio.recv_samples(self.num_samples, self.input_idx))
    }
}

} // verus!
