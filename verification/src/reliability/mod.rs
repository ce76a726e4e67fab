//! Reliability layer over an unreliable channel (like UDP).
//!
//! Based on ideas from Glenn Fiedler's "Reliability, Ordering and Congestion Avoidance over UDP".
use vstd::prelude::*;
use seq::{AckBlock, SeqId};
use bitmask::Bitmask;

pub mod bitmask;
pub mod detect;
pub mod resend;
pub mod seq;
pub mod slide;
pub mod strategy;
mod wrap_order;

pub use detect::DeliveryDetector;
pub use resend::ResendCoordinator;
pub use strategy::ResendIf;

verus! {

/// Header section used for packet delivery detection and/or reliable delivery.
#[derive(Debug)]
pub struct AckSection<B: Bitmask = u32> {
    /// The sequence id of the packet carrying this header.
    pub index: SeqId,
    /// The acknowledgements of packets received from the remote side.
    pub acks: AckBlock<B>,
}

impl<B: Bitmask> Clone for AckSection<B> {
    fn clone(&self) -> (r: Self)
        ensures
            r == *self,
    {
        AckSection { index: self.index, acks: self.acks }
    }
}

impl<B: Bitmask> Default for AckSection<B> {
    fn default() -> (r: Self)
        ensures
            r.index.0 == 0,
            r.acks.index.0 == 0,
            forall|i: int| !r.acks.mask.bit(i),
    {
        AckSection { index: SeqId::zero(), acks: AckBlock::empty() }
    }
}

} // verus!
