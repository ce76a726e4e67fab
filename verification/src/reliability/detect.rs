//! Detection of delivered packets.
use vstd::prelude::*;
use super::AckSection;
use super::bitmask::Bitmask;
use super::seq::{
    AckBlock, AckSequence, HoleError, SeqId, lemma_new_result_unique, lemma_set_keeps_acks,
    law_set_without_hole_ignores_loss, matching_ok, newer, top_ones, wrap_add,
};

verus! {

/// Since UDP doesn't guarantee that sent packets will be received on the other side - it can be
/// useful to detect that sent packets have been delivered. This struct provides such
/// functionality.
///
/// # Strict / lossy
/// Delivery detection can be used in a best-effort (lossy) fashion - possibly yielding false
/// negatives for some packets, but not imposing any restrictions on sending new packets. This
/// mode can be used if not all packets going through delivery detection are expected to be
/// delivered.
///
/// Or in a strict fashion - returning a [`HoleError`] if sending a new packet would make it
/// impossible to inform the remote connection that a sequence id was received. This mode should
/// be used if all packets going through delivery detection are expected to be delivered.
#[derive(Debug)]
pub struct DeliveryDetector<B: Bitmask = u32> {
    outgoing: AckSection<B>,
    delivered: AckBlock<B>,
}

impl<B: Bitmask> Clone for DeliveryDetector<B> {
    fn clone(&self) -> (r: Self)
        ensures
            r == *self,
    {
        DeliveryDetector { outgoing: self.outgoing.clone(), delivered: self.delivered }
    }
}

impl<B: Bitmask> DeliveryDetector<B> {
    /// The header most recently prepared: its index is the last sent id, its acks are the
    /// acknowledgements of received packets.
    pub closed spec fn sent(self) -> AckSection<B> {
        self.outgoing
    }

    /// The acknowledgements received from the remote side.
    pub closed spec fn delivered_block(self) -> AckBlock<B> {
        self.delivered
    }

    /// A header received from the remote side can be recorded: when its acknowledgements have
    /// the index of the known ones, the lowest newly acknowledged bit does not exceed that index
    /// (the freshly acknowledged sequence is then re-based without going below zero).
    pub open spec fn can_record(self, header: AckSection<B>) -> bool {
        header.acks.index == self.delivered_block().index ==> matching_ok(
            header.acks,
            self.delivered_block(),
        )
    }

    /// Whether a header received from the remote side can be recorded (see
    /// [`can_record`](Self::can_record)).
    pub fn is_recordable(&self, header: &AckSection<B>) -> (r: bool)
        ensures
            r == self.can_record(*header),
    {
        self.delivered.can_update(&header.acks)
    }

    /// The state of a freshly created detector: nothing sent, and all the ids of the window
    /// before zero treated as received and delivered.
    pub open spec fn is_initial(self) -> bool {
        &&& self.sent().index.0 == 0
        &&& self.sent().acks.index.0 == 0
        &&& forall|i: int| self.sent().acks.mask.bit(i) <==> 0 <= i < B::width()
        &&& self.delivered_block().index.0 == 0
        &&& forall|i: int| self.delivered_block().mask.bit(i) <==> 0 <= i < B::width()
    }

    pub fn new() -> (r: Self)
        ensures
            r.is_initial(),
    {
        DeliveryDetector {
            outgoing: AckSection { index: SeqId::zero(), acks: AckBlock::preset() },
            // unsent packets are considered "delivered" to simplify initialization logic
            delivered: AckBlock::preset(),
        }
    }

    /// The [`SeqId`] of the next outgoing packet.
    pub fn next_index(&self) -> (r: SeqId)
        ensures
            r.0 == wrap_add(self.sent().index.0, 1),
    {
        self.outgoing.index.next()
    }

    /// `index` is known to be delivered.
    pub open spec fn is_delivered_spec(self, index: SeqId) -> bool {
        self.delivered_block().acks(index.0)
    }

    /// Check whether the provided [`SeqId`] has been delivered.
    pub fn is_delivered(&self, index: SeqId) -> (r: bool)
        ensures
            r == self.is_delivered_spec(index),
    {
        self.delivered.is_set_and_in_bounds(index)
    }

    /// Prepare a header to be resent using an already sent [`SeqId`].
    pub fn prepare_resend(&self, index: SeqId) -> (r: AckSection<B>)
        ensures
            r.index == index,
            r.acks == self.sent().acks,
    {
        AckSection { index, acks: self.outgoing.acks }
    }

    /// Prepare a header to be sent.
    ///
    /// Fails when the packet could not be acknowledged by the remote side without making an
    /// earlier, not yet acknowledged packet impossible to acknowledge.
    pub fn prepare_send_strict(&mut self) -> (r: Result<AckSection<B>, HoleError>)
        ensures
            r is Ok <==> newer(
                SeqId(wrap_add(old(self).delivered_block().index.0, top_ones(old(self).delivered_block().mask))),
                old(self).sent().index,
            ),
            r is Err ==> *final(self) == *old(self),
            r is Ok ==> final(self).sent().index.0 == wrap_add(old(self).sent().index.0, 1),
            r is Ok ==> final(self).sent().acks == old(self).sent().acks,
            r is Ok ==> final(self).delivered_block() == old(self).delivered_block(),
            r is Ok ==> r->Ok_0 == final(self).sent(),
    {
        if self.delivered.max_safe_set_idx() > self.outgoing.index {
            self.outgoing.index.inc();
            Ok(AckSection { index: self.outgoing.index, acks: self.outgoing.acks })
        } else {
            Err(HoleError)
        }
    }

    /// Prepare a header to be sent, without limit on the packets in flight.
    pub fn prepare_send_lossy(&mut self) -> (r: AckSection<B>)
        ensures
            final(self).sent().index.0 == wrap_add(old(self).sent().index.0, 1),
            final(self).sent().acks == old(self).sent().acks,
            final(self).delivered_block() == old(self).delivered_block(),
            r == final(self).sent(),
    {
        self.outgoing.index.inc();
        AckSection { index: self.outgoing.index, acks: self.outgoing.acks }
    }

    /// Process an incoming header, updating known delivered packets.
    ///
    /// This is the strict implementation: it fails, changing nothing, when acknowledging the
    /// header's index would make acknowledging an earlier received packet impossible.
    pub fn record_received_strict(&mut self, header: &AckSection<B>) -> (r: Result<
        AckSequence<B>,
        HoleError,
    >)
        requires
            old(self).can_record(*header),
        ensures
            r is Err <==> old(self).sent().acks.hole_would_form(header.index.0),
            r is Err ==> *final(self) == *old(self),
            r is Ok ==> final(self).sent().index == old(self).sent().index,
            r is Ok ==> old(self).sent().acks.set_result(
                final(self).sent().acks,
                header.index.0,
                false,
            ),
            r is Ok ==> final(self).sent().acks.acks(header.index.0),
            r is Ok ==> forall|j: u16| #[trigger]
                final(self).sent().acks.acks(j) <==> ((j == header.index.0 || old(
                    self,
                ).sent().acks.acks(j)) && final(self).sent().acks.in_window(j)),
            r is Ok ==> old(self).delivered_update(*final(self), header.acks, r->Ok_0),
    {
        match self.outgoing.acks.set_strict(header.index) {
            Ok(()) => Ok(self.delivered.update(&header.acks)),
            Err(e) => Err(e),
        }
    }

    /// Process an incoming header, updating known delivered packets.
    ///
    /// This is the lossy implementation: the header's index is always acknowledged, possibly
    /// making some earlier received packet impossible to acknowledge.
    pub fn record_received_lossy(&mut self, header: &AckSection<B>) -> (r: AckSequence<B>)
        requires
            old(self).can_record(*header),
        ensures
            final(self).sent().index == old(self).sent().index,
            old(self).sent().acks.set_result(final(self).sent().acks, header.index.0, true),
            final(self).sent().acks.acks(header.index.0),
            old(self).delivered_update(*final(self), header.acks, r),
    {
        self.outgoing.acks.set_lossy(header.index);
        self.delivered.update(&header.acks)
    }

    /// `next` has the delivered block that results from receiving `acks` in `self`, and `r` is
    /// the sequence computed by that update.
    pub open spec fn delivered_update(self, next: Self, acks: AckBlock<B>, r: AckSequence<B>) -> bool {
        let old_block = self.delivered_block();
        if acks.index == old_block.index || newer(acks.index, old_block.index) {
            &&& next.delivered_block() == acks
            &&& r.new_result(acks, old_block)
        } else {
            &&& next.delivered_block() == old_block
            &&& r.0 is None
        }
    }

    /// The sequence of known delivered packets.
    pub fn delivered_packets(&self) -> (r: AckSequence<B>)
        ensures
            r == AckSequence::<B>::of_block(self.delivered_block()),
    {
        self.delivered.into()
    }
}

} // verus!

verus! {

/// Where recording a header strictly succeeds, recording it lossily from the same state gives
/// the same detector and the same freshly acknowledged sequence.
pub proof fn law_lossy_record_matches_strict<B: Bitmask>(
    d: DeliveryDetector<B>,
    strict: DeliveryDetector<B>,
    lossy: DeliveryDetector<B>,
    header: AckSection<B>,
    rs: AckSequence<B>,
    rl: AckSequence<B>,
)
    requires
        !d.sent().acks.hole_would_form(header.index.0),
        strict.sent().index == d.sent().index,
        d.sent().acks.set_result(strict.sent().acks, header.index.0, false),
        d.delivered_update(strict, header.acks, rs),
        lossy.sent().index == d.sent().index,
        d.sent().acks.set_result(lossy.sent().acks, header.index.0, true),
        d.delivered_update(lossy, header.acks, rl),
    ensures
        strict == lossy,
        rs == rl,
{
    law_set_without_hole_ignores_loss(
        d.sent().acks,
        strict.sent().acks,
        lossy.sent().acks,
        header.index.0,
    );
    let old_block = d.delivered_block();
    if header.acks.index == old_block.index || newer(header.acks.index, old_block.index) {
        lemma_new_result_unique(rs, rl, header.acks, old_block);
    }
    assert(strict.outgoing == lossy.outgoing);
}

/// An index a detector records, strictly or lossily, is acknowledged by the next header it
/// prepares: preparing a header keeps the acknowledgements of the recorded headers.
pub proof fn law_recorded_index_acknowledged<B: Bitmask>(
    before: DeliveryDetector<B>,
    recorded: DeliveryDetector<B>,
    prepared: DeliveryDetector<B>,
    header: AckSection<B>,
    out: AckSection<B>,
    allow_loss: bool,
)
    requires
        before.sent().acks.set_result(recorded.sent().acks, header.index.0, allow_loss),
        allow_loss || !before.sent().acks.hole_would_form(header.index.0),
        prepared.sent().acks == recorded.sent().acks,
        out == prepared.sent(),
    ensures
        out.acks.acks(header.index.0),
{
    if !before.sent().acks.hole_would_form(header.index.0) {
        lemma_set_keeps_acks(before.sent().acks, recorded.sent().acks, header.index.0, allow_loss);
    }
}

/// Once a detector records a header acknowledging an id, that id counts as delivered, unless
/// the header's acknowledgements are older than those the detector has seen already.
pub proof fn law_delivery_reported<B: Bitmask>(
    before: DeliveryDetector<B>,
    after: DeliveryDetector<B>,
    acks: AckBlock<B>,
    r: AckSequence<B>,
    id: u16,
)
    requires
        before.delivered_update(after, acks, r),
        acks.acks(id),
        acks.index == before.delivered_block().index || newer(
            acks.index,
            before.delivered_block().index,
        ),
    ensures
        after.delivered_block().acks(id),
{
}

} // verus!

verus! {

/// Round trip: when a receiving detector records a header and then prepares a reply, and the
/// sending detector records that reply (its acknowledgements not older than those it has seen),
/// the sender reports the header's packet as delivered.
pub proof fn law_round_trip_delivery<B: Bitmask>(
    receiver: DeliveryDetector<B>,
    receiver_recorded: DeliveryDetector<B>,
    receiver_replied: DeliveryDetector<B>,
    header: AckSection<B>,
    reply: AckSection<B>,
    allow_loss: bool,
    sender: DeliveryDetector<B>,
    sender_after: DeliveryDetector<B>,
    fresh: AckSequence<B>,
)
    requires
        receiver.sent().acks.set_result(receiver_recorded.sent().acks, header.index.0, allow_loss),
        allow_loss || !receiver.sent().acks.hole_would_form(header.index.0),
        receiver_replied.sent().acks == receiver_recorded.sent().acks,
        reply == receiver_replied.sent(),
        sender.delivered_update(sender_after, reply.acks, fresh),
        reply.acks.index == sender.delivered_block().index || newer(
            reply.acks.index,
            sender.delivered_block().index,
        ),
    ensures
        sender_after.is_delivered_spec(header.index),
{
    law_recorded_index_acknowledged(
        receiver,
        receiver_recorded,
        receiver_replied,
        header,
        reply,
        allow_loss,
    );
    law_delivery_reported(sender, sender_after, reply.acks, fresh, header.index.0);
}

} // verus!
