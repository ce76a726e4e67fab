//! Reliable delivery by re-sending possibly lost packets.
use vstd::prelude::*;

use super::AckSection;
use super::DeliveryDetector;
use super::bitmask::{Bitmask, count_true, lemma_count_true_bound, lemma_count_true_mono};
use super::seq::{
    AckSequence, HoleError, SeqId, lemma_set_indices_agree, newer, set_indices, top_ones, wrap_add,
};
use super::slide::{TrackingSlide, rotated};
use super::strategy::{ResendIfMoreLaterAcks, ResendStrategy};

verus! {

impl<S: ResendStrategy + Clone, B: Bitmask, const N: usize> Clone for ResendCoordinator<
    S,
    B,
    N,
> where S::Meta: Clone {
    fn clone(&self) -> (r: Self)
        ensures
            r.detector() == self.detector(),
            r.metadata()@.len() == self.metadata()@.len(),
            r.metadata().first_index() == self.metadata().first_index(),
            forall|i: int|
                0 <= i < self.metadata()@.len() ==> cloned::<S::Meta>(
                    self.metadata()@[i],
                    #[trigger] r.metadata()@[i],
                ),
            cloned::<S>(self.strategy_state(), r.strategy_state()),
    {
        ResendCoordinator {
            dd: self.dd.clone(),
            strat: self.strat.clone(),
            meta: self.meta.clone(),
        }
    }
}

/// The maximum number of packets that can be in flight was reached, no further packets can be
/// sent until some are received by the remote connection.
#[derive(Debug, PartialEq, Eq, Structural, Clone, Copy)]
pub struct MaxPacketsInFlightError;

impl From<HoleError> for MaxPacketsInFlightError {
    fn from(value: HoleError) -> (r: Self) {
        MaxPacketsInFlightError
    }
}

impl vstd::std_specs::convert::FromSpecImpl<HoleError> for MaxPacketsInFlightError {
    open spec fn obeys_from_spec() -> bool {
        true
    }

    open spec fn from_spec(v: HoleError) -> Self {
        MaxPacketsInFlightError
    }
}

/// Provide reliability over an unreliable delivery channel by detecting possibly lost packets
/// and re-sending them.
///
/// Note that actual re-sending should be done by the calling code, as well as ensuring that the
/// re-sent frame data is identical between sent and re-sent packets, as otherwise some data may
/// never be delivered.
pub struct ResendCoordinator<S: ResendStrategy, B: Bitmask, const N: usize> {
    dd: DeliveryDetector<B>,
    strat: S,
    meta: TrackingSlide<S::Meta, SeqId, N>,
}

impl<S: ResendStrategy, B: Bitmask, const N: usize> ResendCoordinator<S, B, N> {
    /// The delivery detector tracking sent and received headers.
    pub closed spec fn detector(self) -> DeliveryDetector<B> {
        self.dd
    }

    /// The metadata of the packets in flight, oldest first.
    pub closed spec fn metadata(self) -> TrackingSlide<S::Meta, SeqId, N> {
        self.meta
    }

    /// The strategy in use.
    pub closed spec fn strategy_state(self) -> S {
        self.strat
    }

    /// The sequence id the metadata tracks at position `k`.
    pub open spec fn tracked_id(self, k: int) -> u16 {
        wrap_add(self.metadata().first_index().0, k)
    }

    /// The packet tracked at position `k` is known to be delivered.
    pub open spec fn tracked_delivered(self, k: int) -> bool {
        self.detector().delivered_block().acks(self.tracked_id(k))
    }

    /// The tracked metadata ends with the last packet sent: the packet at position `k` is the
    /// one sent with id `tracked_id(k)`.
    pub open spec fn tracks_sent(self) -> bool {
        wrap_add(self.metadata().first_index().0, self.metadata()@.len() as int) == wrap_add(
            self.detector().sent().index.0,
            1,
        )
    }

    pub fn new(strat: S) -> (r: Self)
        requires
            N == B::width(),
        ensures
            r.detector().is_initial(),
            r.metadata()@.len() == 0,
            r.metadata().first_index().0 == 1,
            r.tracks_sent(),
            r.strategy_state() == strat,
    {
        let dd = DeliveryDetector::new();
        // the first packet sent gets the id after the initial one
        let first = dd.next_index();
        ResendCoordinator { dd, strat, meta: TrackingSlide::new(first) }
    }

    /// Prepare a (new) packet to be sent.
    /// The packet is considered "in flight" after this function call.
    pub fn prepare_send(&mut self) -> (r: Result<AckSection<B>, MaxPacketsInFlightError>)
        requires
            N == B::width(),
        ensures
            r is Ok <==> newer(
                SeqId(
                    wrap_add(
                        old(self).detector().delivered_block().index.0,
                        top_ones(old(self).detector().delivered_block().mask),
                    ),
                ),
                old(self).detector().sent().index,
            ),
            r is Err ==> *final(self) == *old(self),
            r is Ok ==> final(self).detector().sent().index.0 == wrap_add(
                old(self).detector().sent().index.0,
                1,
            ),
            r is Ok ==> final(self).detector().sent().acks == old(self).detector().sent().acks,
            r is Ok ==> final(self).detector().delivered_block() == old(
                self,
            ).detector().delivered_block(),
            r is Ok ==> r->Ok_0 == final(self).detector().sent(),
            old(self).tracks_sent() ==> final(self).tracks_sent(),
            r is Ok ==> old(self).tracks_sent() ==> final(self).tracked_id(
                final(self).metadata()@.len() - 1,
            ) == r->Ok_0.index.0,
            r is Ok ==> old(self).strategy_state().builds(
                final(self).metadata()@.last(),
                final(self).strategy_state(),
            ),
            r is Ok ==> old(self).metadata()@.len() < N ==> {
                &&& final(self).metadata()@.len() == old(self).metadata()@.len() + 1
                &&& final(self).metadata()@.drop_last() == old(self).metadata()@
                &&& final(self).metadata().first_index() == old(self).metadata().first_index()
            },
            r is Ok ==> old(self).metadata()@.len() == N ==> {
                &&& final(self).metadata()@.len() == N
                &&& final(self).metadata()@.drop_last() == old(self).metadata()@.drop_first()
                &&& final(self).metadata().first_index().0 == wrap_add(
                    old(self).metadata().first_index().0,
                    1,
                )
            },
    {
        proof {
            B::lemma_width();
        }
        let result = match self.dd.prepare_send_strict() {
            Ok(header) => header,
            Err(_) => {
                return Err(MaxPacketsInFlightError);
            },
        };
        let meta = self.strat.build_metadata();
        let ghost before = self.meta@;
        self.meta.push(meta);
        proof {
            assert(before.push(meta).drop_last() =~= before);
            if before.len() == N {
                assert(before.drop_first().push(meta).drop_last() =~= before.drop_first());
            }
            assert(self.meta@.last() == meta);
        }
        Ok(result)
    }

    /// Prepare a previously-sent packet to be sent again, updating its ack-header. Note that
    /// it's the responsibility of the caller to ensure that the resent packet contains the same
    /// frame.
    pub fn prepare_resend(&mut self, index: SeqId) -> (r: AckSection<B>)
        ensures
            r.index == index,
            r.acks == old(self).detector().sent().acks,
            *final(self) == *old(self),
    {
        self.dd.prepare_resend(index)
    }

    /// Whether a header received from the remote side can be recorded.
    pub fn is_recordable(&self, header: &AckSection<B>) -> (r: bool)
        ensures
            r == self.detector().can_record(*header),
    {
        self.dd.is_recordable(header)
    }

    /// Record received packets. Returns the sequence of the newly received packets.
    pub fn record_received(&mut self, header: &AckSection<B>) -> (r: Result<
        AckSequence<B>,
        HoleError,
    >)
        requires
            old(self).detector().can_record(*header),
        ensures
            r is Err <==> old(self).detector().sent().acks.hole_would_form(header.index.0),
            r is Err ==> *final(self) == *old(self),
            r is Ok ==> final(self).detector().sent().index == old(self).detector().sent().index,
            r is Ok ==> old(self).detector().sent().acks.set_result(
                final(self).detector().sent().acks,
                header.index.0,
                false,
            ),
            r is Ok ==> old(self).detector().delivered_update(
                final(self).detector(),
                header.acks,
                r->Ok_0,
            ),
            final(self).metadata() == old(self).metadata(),
            final(self).strategy_state() == old(self).strategy_state(),
            old(self).tracks_sent() ==> final(self).tracks_sent(),
    {
        self.dd.record_received_strict(header)
    }

    /// Get a reference to the used strategy.
    pub fn strategy(&self) -> (r: &S)
        ensures
            *r == self.strategy_state(),
    {
        &self.strat
    }

    /// Get a mutable reference to the used strategy.
    pub fn strategy_mut(&mut self) -> (r: &mut S)
        ensures
            *r == old(self).strategy_state(),
            final(self).strategy_state() == *final(r),
            final(self).detector() == old(self).detector(),
            final(self).metadata() == old(self).metadata(),
    {
        &mut self.strat
    }

    /// The ids of the undelivered tracked packets that `lost` picks, oldest first.
    pub open spec fn resend_ids(self, lost: spec_fn(int) -> bool) -> Seq<u16> {
        set_indices(
            |k: int| !self.tracked_delivered(k) && lost(k),
            self.metadata()@.len() as int,
        ).map_values(|k: int| self.tracked_id(k))
    }

    /// The number of packets known to be delivered among those sent after the tracked packet at
    /// position `k`.
    pub open spec fn later_acks_at(self, k: int) -> int {
        count_true(|j: int| self.tracked_delivered(j), self.metadata()@.len() as int) - count_true(
            |j: int| self.tracked_delivered(j),
            k + 1,
        )
    }

    /// Position `k` of a scan over the tracked packets that leads from `self` to `after`: a
    /// delivered packet is skipped, and the strategy, in state `st[k]`, is asked about any other
    /// one with its metadata and the later acks, answers `lost(k)` and goes to state `st[k + 1]`.
    pub open spec fn resend_step(
        self,
        after: Self,
        lost: spec_fn(int) -> bool,
        st: Seq<S>,
        k: int,
    ) -> bool {
        if self.tracked_delivered(k) {
            &&& st[k + 1] == st[k]
            &&& after.metadata()@[k] == self.metadata()@[k]
        } else {
            st[k].judges(
                self.metadata()@[k],
                self.later_acks_at(k) as u16,
                lost(k),
                st[k + 1],
                after.metadata()@[k],
            )
        }
    }

    /// `after` results from `self` by a scan over all the tracked packets, oldest first, in which
    /// the strategy goes through the states `st` and answers `lost`.
    pub open spec fn resend_scan(
        self,
        after: Self,
        lost: spec_fn(int) -> bool,
        st: Seq<S>,
    ) -> bool {
        let len = self.metadata()@.len() as int;
        &&& st.len() == len + 1
        &&& st[0] == self.strategy_state()
        &&& st[len] == after.strategy_state()
        &&& after.detector() == self.detector()
        &&& after.metadata()@.len() == len
        &&& after.metadata().first_index() == self.metadata().first_index()
        &&& forall|k: int| 0 <= k < len ==> #[trigger] self.resend_step(after, lost, st, k)
    }

    /// Get the packet ids that should be resent according to the strategy: of the packets in
    /// flight that are not known to be delivered, oldest first, those the strategy reports as
    /// lost. The strategy is asked, for each such packet, with its metadata and the number of
    /// known delivered packets sent after it.
    ///
    /// Note that the strategy may assume the packet is re-sent right away, so the exact values
    /// may vary from call to call.
    pub fn packets_to_resend(&mut self) -> (r: Vec<SeqId>)
        requires
            N == B::width(),
        ensures
            exists|lost: spec_fn(int) -> bool, st: Seq<S>|
                #[trigger] old(self).resend_scan(*final(self), lost, st) && r@.map_values(
                    |x: SeqId| x.0,
                ) == old(self).resend_ids(lost),
            old(self).tracks_sent() ==> final(self).tracks_sent(),
    {
        proof {
            B::lemma_width();
        }
        let ghost s0 = *self;
        let ghost del = |j: int| s0.tracked_delivered(j);
        let first = *self.meta.first();
        let len = self.meta.len();
        // count the delivered packets among the tracked ones
        let mut later_acks: u16 = 0;
        let mut index = first;
        let mut k: usize = 0;
        while k < len
            invariant
                len == s0.metadata()@.len(),
                len <= N,
                N == B::width(),
                B::width() <= 64,
                first == s0.metadata().first_index(),
                k <= len,
                index.0 == wrap_add(first.0, k as int),
                *self == s0,
                del == (|j: int| s0.tracked_delivered(j)),
                later_acks == count_true(del, k as int),
            decreases len - k,
        {
            proof {
                lemma_count_true_bound(del, k as int);
                assert(index.0 == s0.tracked_id(k as int));
            }
            if self.dd.is_delivered(index) {
                later_acks = later_acks + 1;
            }
            index.inc();
            k = k + 1;
        }
        let mut out: Vec<SeqId> = Vec::new();
        let ghost mut lost = |j: int| false;
        let ghost mut st: Seq<S> = seq![s0.strategy_state()];
        index = first;
        k = 0;
        while k < len
            invariant
                len == s0.metadata()@.len(),
                len <= N,
                N == B::width(),
                B::width() <= 64,
                first == s0.metadata().first_index(),
                k <= len,
                index.0 == wrap_add(first.0, k as int),
                self.detector() == s0.detector(),
                self.metadata()@.len() == len,
                self.metadata().first_index() == first,
                del == (|j: int| s0.tracked_delivered(j)),
                later_acks == count_true(del, len as int) - count_true(del, k as int),
                out@.map_values(|x: SeqId| x.0) == set_indices(
                    |j: int| !del(j) && lost(j),
                    k as int,
                ).map_values(|j: int| s0.tracked_id(j)),
                st.len() == k + 1,
                st[0] == s0.strategy_state(),
                st[k as int] == self.strategy_state(),
                forall|j: int| 0 <= j < k ==> #[trigger] s0.resend_step(*self, lost, st, j),
                forall|j: int| k <= j < len ==> #[trigger] self.metadata()@[j] == s0.metadata()@[j],
            decreases len - k,
        {
            proof {
                lemma_count_true_mono(del, k as int + 1, len as int);
            }
            let ghost f_old = |j: int| !del(j) && lost(j);
            let ghost self_old = *self;
            let ghost lost_old = lost;
            let ghost st_old = st;
            proof {
                assert(del(k as int) == s0.tracked_delivered(k as int));
                assert(s0.later_acks_at(k as int) == count_true(del, len as int) - count_true(
                    del,
                    k + 1,
                )) by {
                    assert(del =~= (|j: int| s0.tracked_delivered(j)));
                }
            }
            if self.dd.is_delivered(index) {
                later_acks = later_acks - 1;
                proof {
                    st = st.push(st[k as int]);
                }
            } else {
                let ghost decision = false;
                let ghost next_state = st[k as int];
                proof {
                    assert(self.metadata().position(index) == Some(k as int));
                }
                match self.meta.get_mut(&index) {
                    Some(meta) => {
                        let b = self.strat.is_lost(meta, later_acks);
                        if b {
                            out.push(index);
                        }
                        proof {
                            decision = b;
                            next_state = self.strat;
                        }
                    },
                    None => {},
                }
                proof {
                    let l0 = lost;
                    lost = |j: int| if j == k { decision } else { l0(j) };
                    st = st.push(next_state);
                }
            }
            proof {
                assert forall|j: int| 0 <= j < k + 1 implies #[trigger] s0.resend_step(
                    *self,
                    lost,
                    st,
                    j,
                ) by {
                    if j < k {
                        assert(s0.resend_step(self_old, lost_old, st_old, j));
                        assert(self.metadata()@[j] == self_old.metadata()@[j]);
                    }
                }
                let f_new = |j: int| !del(j) && lost(j);
                lemma_set_indices_agree(f_old, f_new, k as int);
                let tail = if f_new(k as int) {
                    seq![k as int]
                } else {
                    seq![]
                };
                assert(set_indices(f_new, k + 1) == set_indices(f_new, k as int) + tail);
                assert(index.0 == s0.tracked_id(k as int));
                if f_new(k as int) {
                    assert(out@.map_values(|x: SeqId| x.0) =~= set_indices(
                        f_old,
                        k as int,
                    ).map_values(|j: int| s0.tracked_id(j)).push(index.0));
                } else {
                    assert(out@.map_values(|x: SeqId| x.0) =~= set_indices(
                        f_old,
                        k as int,
                    ).map_values(|j: int| s0.tracked_id(j)));
                }
                assert(out@.map_values(|x: SeqId| x.0) =~= set_indices(f_new, k + 1).map_values(
                    |j: int| s0.tracked_id(j),
                ));
            }
            index.inc();
            k = k + 1;
        }
        proof {
            let f = |j: int| !del(j) && lost(j);
            let g = |j: int| !s0.tracked_delivered(j) && lost(j);
            lemma_set_indices_agree(f, g, len as int);
            assert(out@.map_values(|x: SeqId| x.0) =~= s0.resend_ids(lost));
            assert(s0.resend_scan(*self, lost, st));
        }
        out
    }

    /// Replace the used strategy with a new one that uses the same metadata.
    pub fn with_strategy<NS: ResendStrategy<Meta = S::Meta>>(self, strategy: NS) -> (r:
        ResendCoordinator<NS, B, N>)
        ensures
            r.detector() == self.detector(),
            r.metadata() == self.metadata(),
            r.strategy_state() == strategy,
            self.tracks_sent() ==> r.tracks_sent(),
    {
        ResendCoordinator { dd: self.dd, strat: strategy, meta: self.meta }
    }

    /// Replace the used strategy with a new one. The new strategy builds metadata for all the
    /// packets in flight, in the order in which the metadata is stored.
    pub fn with_new_strategy<NS: ResendStrategy>(self, strategy: NS) -> (r: ResendCoordinator<
        NS,
        B,
        N,
    >)
        ensures
            r.detector() == self.detector(),
            r.metadata()@.len() == self.metadata()@.len(),
            r.metadata().first_index() == self.metadata().first_index(),
            self.tracks_sent() ==> r.tracks_sent(),
            exists|st: Seq<NS>, metas: Seq<NS::Meta>|
                #[trigger] builds_in_turn(st, metas) && {
                    let len = self.metadata()@.len() as int;
                    &&& metas.len() == len
                    &&& st[0] == strategy
                    &&& st[len] == r.strategy_state()
                    &&& forall|i: int|
                        0 <= i < len ==> #[trigger] r.metadata()@[i] == metas[rotated(
                            self.metadata().inner().rotation(),
                            i,
                            len,
                        )]
                },
    {
        let mut strategy = strategy;
        let len = self.meta.len();
        let mut metas: Vec<NS::Meta> = Vec::new();
        let ghost init = strategy;
        let ghost mut st: Seq<NS> = seq![strategy];
        let mut k: usize = 0;
        while k < len
            invariant
                k <= len,
                metas@.len() == k,
                st.len() == k + 1,
                st[0] == init,
                st[k as int] == strategy,
                builds_in_turn(st, metas@),
            decreases len - k,
        {
            let m = strategy.build_metadata();
            proof {
                let st0 = st;
                st = st.push(strategy);
                assert forall|j: int| 0 <= j < metas@.len() + 1 implies #[trigger] st[j].builds(
                    metas@.push(m)[j],
                    st[j + 1],
                ) by {
                    if j < metas@.len() {
                        assert(st0[j].builds(metas@[j], st0[j + 1]));
                    }
                }
            }
            metas.push(m);
            k = k + 1;
        }
        let meta = self.meta.with_items(metas);
        ResendCoordinator { dd: self.dd, strat: strategy, meta }
    }
}

/// The strategy state stays the same through the first `k` steps of a scan with a strategy that
/// never changes its own state.
proof fn lemma_scan_keeps_strategy<B: Bitmask, const N: usize>(
    before: ResendCoordinator<ResendIfMoreLaterAcks, B, N>,
    after: ResendCoordinator<ResendIfMoreLaterAcks, B, N>,
    lost: spec_fn(int) -> bool,
    st: Seq<ResendIfMoreLaterAcks>,
    k: int,
)
    requires
        before.resend_scan(after, lost, st),
        0 <= k <= before.metadata()@.len(),
    ensures
        st[k] == before.strategy_state(),
    decreases k,
{
    if k > 0 {
        lemma_scan_keeps_strategy(before, after, lost, st, k - 1);
        assert(before.resend_step(after, lost, st, k - 1));
    }
}

/// With the strategy that counts later acknowledgements, the packets to resend are exactly the
/// packets in flight, oldest first, that are not known to be delivered and after which at least
/// the strategy's least number of packets are known to be delivered; the strategy stays the same.
pub proof fn law_resend_if_more_later_acks<B: Bitmask, const N: usize>(
    before: ResendCoordinator<ResendIfMoreLaterAcks, B, N>,
    after: ResendCoordinator<ResendIfMoreLaterAcks, B, N>,
    lost: spec_fn(int) -> bool,
    st: Seq<ResendIfMoreLaterAcks>,
)
    requires
        before.resend_scan(after, lost, st),
    ensures
        before.resend_ids(lost) == before.resend_ids(
            |k: int| before.later_acks_at(k) as u16 >= before.strategy_state().min_later_acks(),
        ),
        after.strategy_state() == before.strategy_state(),
{
    let len = before.metadata()@.len() as int;
    let by_count = |k: int| before.later_acks_at(k) as u16 >= before.strategy_state().min_later_acks();
    let f = |k: int| !before.tracked_delivered(k) && lost(k);
    let g = |k: int| !before.tracked_delivered(k) && by_count(k);
    assert forall|k: int| 0 <= k < len implies #[trigger] f(k) == g(k) by {
        lemma_scan_keeps_strategy(before, after, lost, st, k);
        assert(before.resend_step(after, lost, st, k));
    }
    lemma_set_indices_agree(f, g, len);
    lemma_scan_keeps_strategy(before, after, lost, st, len);
}

/// Each strategy state in `st` builds the metadata at the same position in `metas` and becomes
/// the next state.
pub open spec fn builds_in_turn<S: ResendStrategy>(st: Seq<S>, metas: Seq<S::Meta>) -> bool {
    &&& st.len() == metas.len() + 1
    &&& forall|j: int| 0 <= j < metas.len() ==> #[trigger] st[j].builds(metas[j], st[j + 1])
}

} // verus!
