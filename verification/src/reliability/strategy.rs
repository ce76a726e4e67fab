//! Strategies that decide when a packet should be re-sent.
use vstd::prelude::*;

verus! {

/// Trait for determining when to re-send a packet.
pub trait ResendStrategy: Sized {
    /// Metadata for determining when to resend a given packet.
    ///
    /// This data is typically NOT sent with the packet itself.
    type Meta;

    /// What a call of [`build_metadata`](Self::build_metadata) may do: the strategy `self`
    /// builds `meta` and becomes `next`. A strategy that does not say promises nothing.
    open spec fn builds(self, meta: Self::Meta, next: Self) -> bool {
        true
    }

    /// What a call of [`is_lost`](Self::is_lost) may do: the strategy `self`, asked about a
    /// packet with metadata `meta` and `later_acks` delivered later packets, answers `lost`,
    /// becomes `next` and leaves the metadata as `next_meta`. A strategy that does not say
    /// promises nothing.
    open spec fn judges(
        self,
        meta: Self::Meta,
        later_acks: u16,
        lost: bool,
        next: Self,
        next_meta: Self::Meta,
    ) -> bool {
        true
    }

    /// Get metadata for a packet that is about to be sent.
    ///
    /// Will only be called for new packets, not ones about to be re-sent.
    fn build_metadata(&mut self) -> (r: Self::Meta)
        ensures
            old(self).builds(r, *final(self)),
    ;

    /// Determine if a packet was lost, given its associated metadata and the number of received
    /// acks of later packets (ones sent after the one in question).
    ///
    /// Should return whether a packet should be re-sent.
    fn is_lost(&mut self, meta: &mut Self::Meta, later_acks: u16) -> (r: bool)
        ensures
            old(self).judges(*old(meta), later_acks, r, *final(self), *final(meta)),
    ;
}

/// Treat a packet as lost if the number of known delivered packets sent after the one in
/// question exceeds some threshold.
///
/// Note: this strategy can cause a lot of unnecessary re-sends if the packets to resend are
/// requested multiple times within a single round-trip-time.
#[derive(Debug, Clone, Copy)]
pub struct ResendIfMoreLaterAcks(u32);

impl ResendIfMoreLaterAcks {
    /// The least number of later acks at which a packet counts as lost.
    pub closed spec fn min_later_acks(self) -> u32 {
        self.0
    }

    /// Treat a packet as lost when more than `later_acks` later packets are delivered.
    pub fn new(later_acks: u16) -> (r: Self)
        ensures
            r.min_later_acks() == later_acks + 1,
    {
        ResendIfMoreLaterAcks(later_acks as u32 + 1)
    }
}

impl ResendStrategy for ResendIfMoreLaterAcks {
    type Meta = ();

    /// Building metadata leaves the strategy unchanged.
    open spec fn builds(self, meta: (), next: Self) -> bool {
        next == self
    }

    /// A packet is lost when at least the least number of later packets were delivered; the
    /// strategy stays unchanged.
    open spec fn judges(
        self,
        meta: (),
        later_acks: u16,
        lost: bool,
        next: Self,
        next_meta: (),
    ) -> bool {
        &&& lost == (later_acks >= self.min_later_acks())
        &&& next == self
    }

    fn build_metadata(&mut self) -> (r: Self::Meta) {
    }

    fn is_lost(&mut self, meta: &mut Self::Meta, later_acks: u16) -> (r: bool) {
        later_acks as u32 >= self.0
    }
}

/// Helper initializer for the supplied resend strategies.
pub struct ResendIf;

impl ResendIf {
    /// Resend any packet if more than `n` packets sent after the one in question have been
    /// delivered.
    pub fn later_acks_gt(n: u16) -> (r: ResendIfMoreLaterAcks)
        ensures
            r.min_later_acks() == n + 1,
    {
        ResendIfMoreLaterAcks::new(n)
    }

    /// Resend any packet if at least `n` packets sent after the one in question have been
    /// delivered.
    pub fn later_acks_ge(n: u16) -> (r: ResendIfMoreLaterAcks)
        ensures
            r.min_later_acks() == n,
    {
        ResendIfMoreLaterAcks(n as u32)
    }
}

} // verus!
