//! A node form of the LFSR pseudo-random bit generator, as used for
//! spreading codes and frequency hopping sequences.

use vstd::prelude::*;
use crate::node::NodeError;
use crate::prn::{lfsr_next, lfsr_output, lfsr_step, LfsrWord};

verus! {

/// A node that produces one LFSR output bit per run.
pub struct PrnsNode<T> {
    poly_mask: T,
    state: T,
}

impl<T: LfsrWord> PrnsNode<T> {
    /// The polynomial mask: a one selects a register bit for the feedback.
    pub closed spec fn mask_value(&self) -> nat {
        self.poly_mask.value()
    }

    /// The current register contents.
    pub closed spec fn state_value(&self) -> nat {
        self.state.value()
    }

    /// Builds a node with the given feedback mask and initial register.
    pub fn new(poly_mask: T, state: T) -> (r: Self)
        ensures
            r.mask_value() == poly_mask.value(),
            r.state_value() == state.value(),
    {
        PrnsNode { poly_mask, state }
    }

    /// Steps the register once and returns the bit shifted out of its top.
    pub fn run(&mut self) -> (r: Result<u8, NodeError>)
        ensures
            r matches Ok(b) && b <= 1 && b as nat == lfsr_output(old(self).state_value(), T::modulus()),
            final(self).mask_value() == old(self).mask_value(),
            final(self).state_value() == lfsr_next(
                old(self).state_value(),
                old(self).mask_value(),
                T::width(),
                T::modulus(),
            ),
    {
        let (out, next) = lfsr_step(self.state, self.poly_mask);
        self.state = next;
        Ok(out)
    }
}

/// Builds an LFSR node; the register is as wide as `T`.
///
/// * `poly_mask` - a one selects the register bit for the feedback parity.
/// * `state` - the initial register contents.
pub fn prns<T: LfsrWord>(poly_mask: T, state: T) -> (r: PrnsNode<T>)
    ensures
        r.mask_value() == poly_mask.value(),
        r.state_value() == state.value(),
{
    PrnsNode::new(poly_mask, state)
}

} // verus!
