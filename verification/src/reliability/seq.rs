//! Sequential packet index details.
use vstd::prelude::*;
use vstd::std_specs::ops::AddSpecImpl;
use vstd::std_specs::ops::SubSpecImpl;
use vstd::std_specs::convert::FromSpecImpl;
use super::bitmask::{
    Bitmask, count_true, lemma_count_true_agree, lemma_count_true_bound,
    lemma_count_true_injection, lemma_count_true_set, lemma_count_true_zero, set_below,
};

verus! {

/// The wrapping difference `a - b` of two `u16` values, in `0..65536`.
pub open spec fn wrap_dist(a: u16, b: u16) -> int {
    if a >= b {
        a - b
    } else {
        a - b + 0x1_0000
    }
}

/// The wrapping sum `a + k` of a `u16` value and a small integer offset.
pub open spec fn wrap_add(a: u16, k: int) -> u16 {
    let s = a + k;
    if s >= 0x1_0000 {
        (s - 0x1_0000) as u16
    } else if s < 0 {
        (s + 0x1_0000) as u16
    } else {
        s as u16
    }
}

/// Packet sequence id with support for wrap-around.
///
/// Recently wrapped values are considered newer (larger) than unwrapped ones (so 1 > 65_000).
#[derive(Debug, Clone, Copy, PartialEq, Eq, Structural, Default, Hash)]
pub struct SeqId(pub u16);

/// `a` is strictly newer than `b`: it lies less than half of the `u16` range ahead of `b`.
pub open spec fn newer(a: SeqId, b: SeqId) -> bool {
    a.0 != b.0 && wrap_dist(a.0, b.0) < 0x8000
}

impl SeqId {
    /// Construct the zero-th sequence id (same as `default()`).
    pub fn zero() -> (r: Self)
        ensures
            r.0 == 0,
    {
        SeqId(0)
    }

    /// Increment the sequential id, setting self to the next value.
    pub fn inc(&mut self)
        ensures
            final(self).0 == wrap_add(old(self).0, 1),
    {
        self.0 = self.0.wrapping_add(1);
    }

    /// Get the next sequential id.
    pub fn next(self) -> (r: Self)
        ensures
            r.0 == wrap_add(self.0, 1),
    {
        SeqId(self.0.wrapping_add(1))
    }

    /// Whether `self` is strictly newer than `other` (the `>` of the wrap-around order).
    pub(crate) fn is_newer_than(self, other: Self) -> (r: bool)
        ensures
            r == newer(self, other),
    {
        self.0 != other.0 && self.0.wrapping_sub(other.0) < 0x8000
    }
}

impl core::ops::Add<u16> for SeqId {
    type Output = SeqId;

    fn add(self, rhs: u16) -> (r: SeqId) {
        SeqId(self.0.wrapping_add(rhs))
    }
}

impl AddSpecImpl<u16> for SeqId {
    open spec fn obeys_add_spec() -> bool {
        true
    }

    open spec fn add_req(self, rhs: u16) -> bool {
        true
    }

    open spec fn add_spec(self, rhs: u16) -> SeqId {
        SeqId(wrap_add(self.0, rhs as int))
    }
}

impl core::ops::Sub for SeqId {
    type Output = u16;

    fn sub(self, rhs: SeqId) -> (r: u16) {
        let r = self.0.wrapping_sub(rhs.0);
        assert(r == wrap_dist(self.0, rhs.0) as u16);
        r
    }
}

impl SubSpecImpl for SeqId {
    open spec fn obeys_sub_spec() -> bool {
        true
    }

    open spec fn sub_req(self, rhs: SeqId) -> bool {
        true
    }

    open spec fn sub_spec(self, rhs: SeqId) -> u16 {
        wrap_dist(self.0, rhs.0) as u16
    }
}

} // verus!

verus! {

/// The provided sequence number couldn't be checked, as it's outside expected bounds.
#[derive(Debug, PartialEq, Eq, Structural, Clone, Copy)]
pub struct OutOfBoundsError;

/// Setting provided [`SeqId`] would make later acknowledgement of a preceding [`SeqId`] impossible.
#[derive(Debug, PartialEq, Eq, Structural, Clone, Copy)]
pub struct HoleError;

/// The top `k` bits of `m` are all set.
pub open spec fn top_run<B: Bitmask>(m: B, k: int) -> bool {
    forall|i: int| B::width() - k <= i < B::width() ==> #[trigger] m.bit(i)
}

/// `r` is the number of contiguous set bits of `m` counted from its top bit down.
pub open spec fn is_highest_ones<B: Bitmask>(m: B, r: int) -> bool {
    &&& 0 <= r <= B::width()
    &&& top_run(m, r)
    &&& r < B::width() ==> !m.bit(B::width() - 1 - r)
}

/// The number of contiguous set bits of `m` counted from its top bit down.
pub open spec fn top_ones<B: Bitmask>(m: B) -> int {
    choose|r: int| is_highest_ones(m, r)
}

/// `g` is the lowest index in `0..n` at which `f` holds.
pub open spec fn is_lowest(f: spec_fn(int) -> bool, n: int, g: int) -> bool {
    &&& 0 <= g < n
    &&& f(g)
    &&& forall|i: int| 0 <= i < g ==> !#[trigger] f(i)
}

/// The lowest index in `0..n` at which `f` holds (meaningful when there is one).
pub open spec fn lowest(f: spec_fn(int) -> bool, n: int) -> int {
    choose|g: int| is_lowest(f, n, g)
}

/// The indices in `0..n` at which `f` holds, in increasing order.
pub open spec fn set_indices(f: spec_fn(int) -> bool, n: int) -> Seq<int>
    decreases n,
{
    if n <= 0 {
        seq![]
    } else {
        set_indices(f, n - 1) + if f(n - 1) {
            seq![n - 1]
        } else {
            seq![]
        }
    }
}

/// Block of acknowledgements. Used to keep track of delivered packets in the reliability layer.
///
/// `index` is acknowledged, and bit `k` of `mask` acknowledges the id `index - 1 - k`.
#[derive(Debug, Clone, Copy)]
pub struct AckBlock<B: Bitmask> {
    pub index: SeqId,
    pub mask: B,
}

impl<B: Bitmask> AckBlock<B> {
    /// `id` lies in the window this block can describe: `index` and the `width` ids before it.
    pub open spec fn in_window(self, id: u16) -> bool {
        wrap_dist(self.index.0, id) <= B::width()
    }

    /// `id` is acknowledged by this block.
    pub open spec fn acks(self, id: u16) -> bool {
        id == self.index.0 || (1 <= wrap_dist(self.index.0, id) && self.mask.bit(
            wrap_dist(self.index.0, id) - 1,
        ))
    }

    /// Setting `id` without loss is impossible: it lies neither in the window nor within the
    /// run of set top bits ahead of it.
    pub open spec fn hole_would_form(self, id: u16) -> bool {
        &&& id != self.index.0
        &&& wrap_dist(self.index.0, id) > B::width()
        &&& !(wrap_dist(id, self.index.0) <= B::width() && top_run(
            self.mask,
            wrap_dist(id, self.index.0),
        ))
    }

    /// `next` is the block that results from setting `id` in `self`.
    pub open spec fn set_result(self, next: Self, id: u16, allow_loss: bool) -> bool {
        let w = B::width();
        let rd = wrap_dist(self.index.0, id);
        let d = wrap_dist(id, self.index.0);
        if id == self.index.0 {
            next == self
        } else if rd <= w {
            &&& next.index == self.index
            &&& forall|i: int| #[trigger] next.mask.bit(i) == (i == rd - 1 || self.mask.bit(i))
        } else if d <= w && top_run(self.mask, d) {
            &&& next.index.0 == id
            &&& forall|i: int| #[trigger]
                next.mask.bit(i) == (i == d - 1 || (d <= i < w && self.mask.bit(i - d)))
        } else if allow_loss {
            &&& next.index.0 == id
            &&& forall|i: int| !#[trigger] next.mask.bit(i)
        } else {
            next == self
        }
    }

    /// Create an instance with the mask completely set.
    /// This is useful for tracking outgoing packets, as the buffer can advance up to the mask
    /// width before yielding a [`HoleError`].
    pub fn preset() -> (r: Self)
        ensures
            r.index.0 == 0,
            forall|i: int| r.mask.bit(i) <==> 0 <= i < B::width(),
    {
        AckBlock { index: SeqId::zero(), mask: B::filled() }
    }

    /// Create an instance with the mask free.
    /// This is useful for tracking incoming packets, although it does erroneously consider the
    /// 0-index sequence id to have been received.
    pub fn empty() -> (r: Self)
        ensures
            r.index.0 == 0,
            forall|i: int| !r.mask.bit(i),
    {
        AckBlock { index: SeqId::zero(), mask: B::empty() }
    }

    /// Whether [`update`](Self::update) accepts `other`: where both blocks have the same index,
    /// the lowest bit set in `other` and not in `self` must not exceed that index.
    pub fn can_update(&self, other: &Self) -> (r: bool)
        ensures
            r == (other.index == self.index ==> matching_ok(*other, *self)),
    {
        if other.index.0 != self.index.0 {
            return true;
        }
        let ghost f = fresh_bits(other.mask, self.mask);
        let mut mask = other.mask;
        mask.unset_every(self.mask);
        proof {
            B::lemma_bit_range(mask);
            assert forall|i: int| #![trigger mask.bit(i)] #![trigger f(i)] mask.bit(i) == f(i) by {}
        }
        if mask.is_empty() {
            return true;
        }
        let gap = mask.lowest_zeros();
        proof {
            assert(is_lowest(f, B::width() as int, gap as int));
            lemma_lowest_unique(f, B::width() as int, gap as int);
        }
        gap <= other.index.0
    }

    /// Get the maximum index that could be used in [`set_strict`](Self::set_strict) without
    /// causing a [`HoleError`].
    pub fn max_safe_set_idx(&self) -> (r: SeqId)
        ensures
            r.0 == wrap_add(self.index.0, top_ones(self.mask)),
    {
        let h = self.mask.highest_ones();
        proof {
            lemma_highest_ones_unique(self.mask, h as int);
        }
        self.index + h
    }

    /// Is the provided index currently set?
    pub fn is_set(&self, index: SeqId) -> (r: Result<bool, OutOfBoundsError>)
        ensures
            r == if self.in_window(index.0) {
                Ok::<bool, OutOfBoundsError>(self.acks(index.0))
            } else {
                Err(OutOfBoundsError)
            },
    {
        if index == self.index {
            return Ok(true);
        }
        let dist = self.index - index;
        if dist > B::max_bits() {
            return Err(OutOfBoundsError);
        }
        Ok(self.mask.is_set(dist - 1))
    }

    /// Shorthand for [`is_set`](Self::is_set) unwrapping an error into `false` value.
    pub fn is_set_and_in_bounds(&self, index: SeqId) -> (r: bool)
        ensures
            r == self.acks(index.0),
    {
        proof {
            B::lemma_bit_range(self.mask);
        }
        match self.is_set(index) {
            Ok(b) => b,
            Err(_) => false,
        }
    }

    /// Set the provided index if such an operation will not make later acknowledgement of any
    /// unacknowledged packets impossible.
    pub fn set_strict(&mut self, index: SeqId) -> (r: Result<(), HoleError>)
        ensures
            r is Err <==> old(self).hole_would_form(index.0),
            r is Err ==> *final(self) == *old(self),
            r is Ok ==> old(self).set_result(*final(self), index.0, false),
            r is Ok ==> forall|j: u16|
                #[trigger] final(self).acks(j) <==> ((j == index.0 || old(self).acks(j))
                    && final(self).in_window(j)),
            r is Ok ==> forall|j: u16|
                #[trigger] old(self).in_window(j) && !final(self).in_window(j) ==> old(self).acks(
                    j,
                ),
    {
        let hole_would_form = self.set_internal(index, false);
        proof {
            if !hole_would_form {
                lemma_set_keeps_acks(*old(self), *self, index.0, false);
            }
        }
        if hole_would_form {
            Err(HoleError)
        } else {
            Ok(())
        }
    }

    /// Set the provided index, possibly making some preceding unacknowledged [`SeqId`] not
    /// acknowledgeable using this [`AckBlock`].
    ///
    /// Returns whether some preceding [`SeqId`] is no longer acknowledgeable using this block.
    pub fn set_lossy(&mut self, index: SeqId) -> (r: bool)
        ensures
            r == old(self).hole_would_form(index.0),
            old(self).set_result(*final(self), index.0, true),
            final(self).acks(index.0),
            !r ==> forall|j: u16|
                #[trigger] final(self).acks(j) <==> ((j == index.0 || old(self).acks(j))
                    && final(self).in_window(j)),
            r ==> forall|j: u16| #[trigger] final(self).acks(j) <==> j == index.0,
    {
        let r = self.set_internal(index, true);
        proof {
            if !r {
                lemma_set_keeps_acks(*old(self), *self, index.0, true);
            }
        }
        r
    }

    /// Set the provided index. Returns whether a hole would form (or formed, when `allow_loss`).
    fn set_internal(&mut self, index: SeqId, allow_loss: bool) -> (r: bool)
        ensures
            r == old(self).hole_would_form(index.0),
            old(self).set_result(*final(self), index.0, allow_loss),
    {
        proof {
            B::lemma_width();
        }
        if index == self.index {
            return false;
        }
        let w = B::max_bits();
        let reverse_dist = self.index - index;
        if reverse_dist <= w {
            self.mask.set(reverse_dist - 1);
            return false;
        }
        let dist = index - self.index;
        if dist <= w && self.mask.highest_ones() >= dist {
            self.mask.shift(dist);
            self.mask.set(dist - 1);
            self.index = index;
            false
        } else {
            if allow_loss {
                self.mask = B::empty();
                self.index = index;
            }
            true
        }
    }
}

/// The value `highest_ones` computes is the only one with its defining property.
pub proof fn lemma_highest_ones_unique<B: Bitmask>(m: B, h: int)
    requires
        is_highest_ones(m, h),
    ensures
        top_ones(m) == h,
{
    let c = top_ones(m);
    assert(is_highest_ones(m, c));
    if c < h {
        assert(m.bit(B::width() - 1 - c));
    } else if c > h {
        assert(m.bit(B::width() - 1 - h));
    }
}

/// Setting an id without forming a hole acknowledges the new id on top of the old ones (within
/// the new window), and every id that leaves the window was acknowledged already.
pub proof fn lemma_set_keeps_acks<B: Bitmask>(
    old: AckBlock<B>,
    new: AckBlock<B>,
    id: u16,
    allow_loss: bool,
)
    requires
        old.set_result(new, id, allow_loss),
        !old.hole_would_form(id),
    ensures
        new.acks(id),
        forall|j: u16| #[trigger] new.acks(j) <==> ((j == id || old.acks(j)) && new.in_window(j)),
        forall|j: u16| #[trigger] old.in_window(j) && !new.in_window(j) ==> old.acks(j),
{
    B::lemma_width();
    B::lemma_bit_range(old.mask);
    B::lemma_bit_range(new.mask);
}


/// Setting an id marks no other id as acknowledged, and the id itself is acknowledged unless a
/// strict set was refused.
pub proof fn law_set_marks_only_id<B: Bitmask>(
    old: AckBlock<B>,
    new: AckBlock<B>,
    id: u16,
    allow_loss: bool,
)
    requires
        old.set_result(new, id, allow_loss),
    ensures
        forall|j: u16| j != id && #[trigger] new.acks(j) ==> old.acks(j),
        (allow_loss || !old.hole_would_form(id)) ==> new.acks(id),
{
    B::lemma_width();
    B::lemma_bit_range(old.mask);
    B::lemma_bit_range(new.mask);
    if !old.hole_would_form(id) {
        lemma_set_keeps_acks(old, new, id, allow_loss);
    }
}

/// Setting an id that leaves no hole gives the same block whether loss is allowed or not.
pub proof fn law_set_without_hole_ignores_loss<B: Bitmask>(
    old: AckBlock<B>,
    strict: AckBlock<B>,
    lossy: AckBlock<B>,
    id: u16,
)
    requires
        old.set_result(strict, id, false),
        old.set_result(lossy, id, true),
        !old.hole_would_form(id),
    ensures
        strict == lossy,
{
    if id != old.index.0 {
        assert forall|i: int| #[trigger] strict.mask.bit(i) == lossy.mask.bit(i) by {}
        B::lemma_bits_determine(strict.mask, lossy.mask);
    }
}

} // verus!
verus! {

/// An iterable freshly acknowledged ack sequence.
///
/// `Some((last, mask))` yields, in order, `last - width + k` for every set bit `k` of `mask`
/// (lowest first) and finally `last`.
#[derive(Debug, Clone, Copy, PartialEq, Eq)]
pub struct AckSequence<B: Bitmask>(pub Option<(SeqId, B)>);

/// Bits set in `new` and not in `old`.
pub open spec fn fresh_bits<B: Bitmask>(new: B, old: B) -> spec_fn(int) -> bool {
    |i: int| new.bit(i) && !old.bit(i)
}

/// The result of comparing two blocks with equal index can be expressed as a sequence id: the
/// lowest fresh bit does not exceed the index.
pub open spec fn matching_ok<B: Bitmask>(new: AckBlock<B>, old: AckBlock<B>) -> bool {
    (exists|i: int| 0 <= i < B::width() && #[trigger] fresh_bits(new.mask, old.mask)(i))
        ==> lowest(fresh_bits(new.mask, old.mask), B::width() as int) <= new.index.0
}

impl<B: Bitmask> AckSequence<B> {
    /// The ids this sequence yields, in order.
    pub open spec fn ids(self) -> Seq<u16> {
        match self.0 {
            None => seq![],
            Some((last, mask)) => set_indices(|i: int| mask.bit(i), B::width() as int).map_values(
                |k: int| wrap_add(last.0, k - B::width()),
            ).push(last.0),
        }
    }

    /// `self` is the sequence computed from `new` and `old` blocks with equal index: the fresh
    /// bits, re-based so that the lowest one becomes the last yielded id and is yielded only
    /// there: one id for every fresh bit.
    pub open spec fn from_matching_result(self, new: AckBlock<B>, old: AckBlock<B>) -> bool {
        let f = fresh_bits(new.mask, old.mask);
        let g = lowest(f, B::width() as int);
        if forall|i: int| 0 <= i < B::width() ==> !#[trigger] f(i) {
            self.0 is None
        } else {
            match self.0 {
                Some((last, m)) => {
                    &&& last.0 == new.index.0 - g
                    &&& forall|i: int| #[trigger]
                        m.bit(i) == (1 <= i && i + g < B::width() && f(i + g))
                },
                None => false,
            }
        }
    }

    /// `self` is the sequence computed from the `new` block against the `old` one.
    pub open spec fn new_result(self, new: AckBlock<B>, old: AckBlock<B>) -> bool {
        let d = wrap_dist(new.index.0, old.index.0);
        if d == 0 {
            self.from_matching_result(new, old)
        } else {
            match self.0 {
                Some((last, m)) => {
                    &&& last == new.index
                    &&& forall|i: int| #[trigger]
                        m.bit(i) == (new.mask.bit(i) && !(i == d - 1 || (d <= i && old.mask.bit(
                            i - d,
                        ))))
                },
                None => false,
            }
        }
    }

    /// Construct a new ack sequence, assuming that the new index has not been received before.
    pub fn new(new: &AckBlock<B>, old: &AckBlock<B>) -> (r: Self)
        requires
            new.index == old.index ==> matching_ok(*new, *old),
        ensures
            r.new_result(*new, *old),
    {
        proof {
            B::lemma_width();
        }
        let w = B::max_bits();
        let gap = new.index - old.index;
        if gap == 0 {
            return Self::from_matching(new, old);
        }
        if gap > w {
            // the old index and everything it acknowledged lie before the new window
            proof {
                B::lemma_bit_range(new.mask);
            }
            return AckSequence(Some((new.index, new.mask)));
        }
        let mut mask = new.mask;
        let mut old_mask = old.mask;
        old_mask.shift(1);
        old_mask.set(0);
        proof {
            assert forall|i: int| #[trigger]
                old_mask.bit(i) == (i == 0 || (1 <= i < B::width() && old.mask.bit(i - 1))) by {}
        }
        let ghost before = old_mask;
        old_mask.shift(gap - 1);
        proof {
            assert forall|i: int| #[trigger]
                old_mask.bit(i) == (i == gap - 1 || (gap <= i < B::width() && old.mask.bit(
                    i - gap,
                ))) by {
                assert(old_mask.bit(i) == (gap - 1 <= i < B::width() && before.bit(
                    i - (gap - 1),
                )));
            }
        }
        mask.unset_every(old_mask);
        proof {
            B::lemma_bit_range(new.mask);
            B::lemma_bit_range(old.mask);
        }
        AckSequence(Some((new.index, mask)))
    }

    fn from_matching(new: &AckBlock<B>, old: &AckBlock<B>) -> (r: Self)
        requires
            new.index == old.index,
            matching_ok(*new, *old),
        ensures
            r.from_matching_result(*new, *old),
    {
        let ghost f = fresh_bits(new.mask, old.mask);
        let mut mask = new.mask;
        mask.unset_every(old.mask);
        proof {
            B::lemma_bit_range(mask);
            assert forall|i: int| #![trigger mask.bit(i)] #![trigger f(i)] mask.bit(i) == f(i) by {
                assert(mask.bit(i) == (new.mask.bit(i) && !old.mask.bit(i)));
            }
        }
        if mask.is_empty() {
            return AckSequence(None);
        }
        let gap = mask.lowest_zeros();
        proof {
            assert(is_lowest(f, B::width() as int, gap as int));
            lemma_lowest_unique(f, B::width() as int, gap as int);
        }
        let index = SeqId(new.index.0 - gap);
        mask.unshift(gap);
        mask.unset(0);
        AckSequence(Some((index, mask)))
    }

    /// Number of remaining acknowledged ids.
    pub fn count(self) -> (r: u16)
        ensures
            r == self.ids().len(),
    {
        match self.0 {
            Some((_, mask)) => {
                let c = mask.count_ones();
                proof {
                    B::lemma_width();
                    lemma_set_indices_len(|i: int| mask.bit(i), B::width() as int);
                    lemma_count_true_bound(|i: int| mask.bit(i), B::width() as int);
                }
                c + 1
            },
            None => 0,
        }
    }
}

impl<B: Bitmask> AckSequence<B> {
    /// Yield the next acknowledged id, if any.
    pub fn next(&mut self) -> (r: Option<SeqId>)
        ensures
            old(self).ids().len() == 0 ==> r is None && final(self).ids().len() == 0,
            old(self).ids().len() > 0 ==> r == Some(SeqId(old(self).ids()[0])),
            old(self).ids().len() > 0 ==> final(self).ids() == old(self).ids().drop_first(),
    {
        match self.0 {
            None => None,
            Some((last, mask)) => {
                let ghost f = |i: int| mask.bit(i);
                let ghost h = |k: int| wrap_add(last.0, k - B::width());
                proof {
                    B::lemma_width();
                    B::lemma_bit_range(mask);
                }
                if mask.is_empty() {
                    proof {
                        lemma_set_indices_none(f, B::width() as int);
                        assert(old(self).ids() =~= seq![last.0]);
                    }
                    self.0 = None;
                    Some(last)
                } else {
                    let lz = mask.lowest_zeros();
                    let w = B::max_bits();
                    let result = SeqId(last.0.wrapping_sub(w).wrapping_add(lz));
                    let mut m = mask;
                    m.unset(lz);
                    let ghost fm = |i: int| m.bit(i);
                    proof {
                        assert(is_lowest(f, w as int, lz as int));
                        assert forall|i: int| #[trigger] fm(i) == (f(i) && i != lz) by {}
                        lemma_set_indices_drop_lowest(f, fm, w as int, lz as int);
                        let s = set_indices(f, w as int);
                        assert(s.drop_first().map_values(h) =~= s.map_values(h).drop_first());
                        assert(s.map_values(h).push(last.0).drop_first() =~= s.map_values(
                            h,
                        ).drop_first().push(last.0));
                    }
                    self.0 = Some((last, m));
                    Some(result)
                }
            },
        }
    }
}

impl<B: Bitmask> AckSequence<B> {
    /// All the remaining ids, in the order [`next`](Self::next) yields them.
    pub fn collect(self) -> (r: Vec<SeqId>)
        ensures
            r@.map_values(|x: SeqId| x.0) == self.ids(),
    {
        let mut cur = self;
        let mut out: Vec<SeqId> = Vec::new();
        loop
            invariant
                out@.map_values(|x: SeqId| x.0) + cur.ids() == self.ids(),
            ensures
                out@.map_values(|x: SeqId| x.0) == self.ids(),
            decreases cur.ids().len(),
        {
            let ghost before = cur.ids();
            let n = cur.next();
            match n {
                Some(id) => {
                    proof {
                        assert(out@.push(id).map_values(|x: SeqId| x.0) =~= out@.map_values(
                            |x: SeqId| x.0,
                        ).push(id.0));
                        assert(before =~= seq![id.0] + before.drop_first());
                        assert(out@.map_values(|x: SeqId| x.0).push(id.0) + cur.ids()
                            =~= out@.map_values(|x: SeqId| x.0) + before);
                    }
                    out.push(id);
                },
                None => {
                    proof {
                        assert(cur.ids() =~= Seq::<u16>::empty());
                        assert(out@.map_values(|x: SeqId| x.0) + cur.ids() =~= out@.map_values(
                            |x: SeqId| x.0,
                        ));
                    }
                    break ;
                },
            }
        }
        out
    }
}

impl<B: Bitmask> AckSequence<B> {
    /// The sequence of ids a block acknowledges: its index and the ids of its set bits; nothing
    /// for an empty block at index zero.
    pub open spec fn of_block(v: AckBlock<B>) -> Self {
        if (forall|i: int| !#[trigger] v.mask.bit(i)) && v.index.0 == 0 {
            AckSequence(None)
        } else {
            AckSequence(Some((v.index, v.mask)))
        }
    }
}

impl<B: Bitmask> From<AckBlock<B>> for AckSequence<B> {
    fn from(value: AckBlock<B>) -> (r: Self) {
        let empty = value.mask.is_empty();
        let zero = value.index.0 == 0;
        let r = if empty && zero {
            AckSequence(None)
        } else {
            AckSequence(Some((value.index, value.mask)))
        };
        assert(empty && zero <==> (forall|i: int| !#[trigger] value.mask.bit(i)) && value.index.0
            == 0);
        r
    }
}

impl<B: Bitmask> FromSpecImpl<AckBlock<B>> for AckSequence<B> {
    open spec fn obeys_from_spec() -> bool {
        true
    }

    open spec fn from_spec(v: AckBlock<B>) -> Self {
        AckSequence::of_block(v)
    }
}

impl<B: Bitmask> AckBlock<B> {
    /// Update `self` to include as many set bits from supplied `other` as possible. The
    /// implementation assumes that all packets preceding the ids within `self` have been
    /// delivered already.
    ///
    /// When `other` is not older than `self`, `self` becomes `other` and the returned sequence
    /// is computed by [`AckSequence::new`]; otherwise nothing changes and nothing is returned.
    pub fn update(&mut self, other: &Self) -> (r: AckSequence<B>)
        requires
            other.index == old(self).index ==> matching_ok(*other, *old(self)),
        ensures
            (other.index == old(self).index || newer(other.index, old(self).index)) ==> {
                &&& *final(self) == *other
                &&& r.new_result(*other, *old(self))
            },
            !(other.index == old(self).index || newer(other.index, old(self).index)) ==> {
                &&& *final(self) == *old(self)
                &&& r.0 is None
            },
    {
        if other.index >= self.index {
            let result = AckSequence::new(other, &*self);
            self.index = other.index;
            self.mask = other.mask;
            result
        } else {
            AckSequence(None)
        }
    }
}

/// `f` holding nowhere leaves no indices.
pub proof fn lemma_set_indices_none(f: spec_fn(int) -> bool, n: int)
    requires
        forall|i: int| 0 <= i < n ==> !#[trigger] f(i),
    ensures
        set_indices(f, n) == Seq::<int>::empty(),
    decreases n,
{
    if n > 0 {
        lemma_set_indices_none(f, n - 1);
        assert(set_indices(f, n) =~= set_indices(f, n - 1));
    }
}

/// Removing the lowest index at which `f` holds drops the first of its indices.
pub proof fn lemma_set_indices_drop_lowest(
    f: spec_fn(int) -> bool,
    fm: spec_fn(int) -> bool,
    n: int,
    g: int,
)
    requires
        is_lowest(f, n, g),
        forall|i: int| #[trigger] fm(i) == (f(i) && i != g),
    ensures
        set_indices(f, n).len() > 0,
        set_indices(f, n)[0] == g,
        set_indices(fm, n) == set_indices(f, n).drop_first(),
    decreases n,
{
    if n == g + 1 {
        lemma_set_indices_none(f, g);
        lemma_set_indices_none(fm, g);
        assert(set_indices(f, n) =~= seq![g]);
        assert(set_indices(fm, n) =~= Seq::<int>::empty());
    } else {
        lemma_set_indices_drop_lowest(f, fm, n - 1, g);
        let tail = if f(n - 1) {
            seq![n - 1]
        } else {
            seq![]
        };
        assert(set_indices(f, n) =~= set_indices(f, n - 1) + tail);
        assert(set_indices(fm, n) =~= set_indices(fm, n - 1) + tail);
        assert((set_indices(f, n - 1) + tail).drop_first() =~= set_indices(f, n - 1).drop_first()
            + tail);
    }
}

/// Functions that agree below `n` hold at the same indices there.
pub proof fn lemma_set_indices_agree(f: spec_fn(int) -> bool, g: spec_fn(int) -> bool, n: int)
    requires
        forall|i: int| 0 <= i < n ==> #[trigger] f(i) == g(i),
    ensures
        set_indices(f, n) == set_indices(g, n),
    decreases n,
{
    if n > 0 {
        lemma_set_indices_agree(f, g, n - 1);
    }
}

/// Only one index is the lowest at which `f` holds.
pub proof fn lemma_lowest_unique(f: spec_fn(int) -> bool, n: int, g: int)
    requires
        is_lowest(f, n, g),
    ensures
        lowest(f, n) == g,
{
    let c = lowest(f, n);
    assert(is_lowest(f, n, c));
    if c < g {
        assert(!f(c));
    } else if c > g {
        assert(!f(g));
    }
}

/// Where `f` holds somewhere in `0..n`, it has a lowest index there.
pub proof fn lemma_lowest_exists(f: spec_fn(int) -> bool, n: int, i: int)
    requires
        0 <= i < n,
        f(i),
    ensures
        is_lowest(f, n, lowest(f, n)),
    decreases i,
{
    if forall|j: int| 0 <= j < i ==> !#[trigger] f(j) {
        assert(is_lowest(f, n, i));
    } else {
        let j = choose|j: int| 0 <= j < i && #[trigger] f(j);
        lemma_lowest_exists(f, n, j);
    }
}

/// Where `g` is the lowest index at which `f` holds, the indices above it, re-based to `g`, are
/// one fewer than all of them.
proof fn lemma_count_rebased(f: spec_fn(int) -> bool, n: int, g: int)
    requires
        is_lowest(f, n, g),
    ensures
        count_true(f, n) == 1 + count_true(|i: int| 1 <= i && i + g < n && f(i + g), n),
{
    let f2 = |j: int| f(j) && j != g;
    let h = |i: int| 1 <= i && i + g < n && f(i + g);
    lemma_count_true_set(f, n);
    lemma_count_true_set(f2, n);
    assert(set_below(f, n) =~= set_below(f2, n).insert(g));
    assert forall|i: int, j: int|
        0 <= i < n && 0 <= j < n && #[trigger] h(i) && #[trigger] h(j) && i + g == j + g implies i
        == j by {}
    lemma_count_true_injection(h, n, f2, n, |i: int| i + g);
    assert forall|i: int, j: int|
        0 <= i < n && 0 <= j < n && #[trigger] f2(i) && #[trigger] f2(j) && i - g == j - g implies i
        == j by {}
    assert forall|j: int| 0 <= j < n && #[trigger] f2(j) implies 0 <= j - g < n && h(j - g) by {
        assert(j >= g);
    }
    lemma_count_true_injection(f2, n, h, n, |j: int| j - g);
}

/// The sequence computed from a new block against an old one is determined by them.
pub proof fn lemma_new_result_unique<B: Bitmask>(
    a: AckSequence<B>,
    b: AckSequence<B>,
    new: AckBlock<B>,
    old: AckBlock<B>,
)
    requires
        a.new_result(new, old),
        b.new_result(new, old),
    ensures
        a == b,
{
    match (a.0, b.0) {
        (Some((la, ma)), Some((lb, mb))) => {
            assert forall|i: int| #[trigger] ma.bit(i) == mb.bit(i) by {}
            B::lemma_bits_determine(ma, mb);
        },
        _ => {},
    }
}

/// Two blocks with equal index give one acknowledged id for every bit set in the new block
/// and not in the old one.
pub proof fn law_matching_yields_fresh_bits<B: Bitmask>(
    new: AckBlock<B>,
    old: AckBlock<B>,
    s: AckSequence<B>,
)
    requires
        s.from_matching_result(new, old),
    ensures
        s.ids().len() == count_true(fresh_bits(new.mask, old.mask), B::width() as int),
{
    B::lemma_width();
    let f = fresh_bits(new.mask, old.mask);
    let w = B::width() as int;
    if forall|i: int| 0 <= i < w ==> !#[trigger] f(i) {
        lemma_count_true_zero(f, w);
    } else {
        let i = choose|i: int| 0 <= i < w && !!#[trigger] f(i);
        lemma_lowest_exists(f, w, i);
        let g = lowest(f, w);
        lemma_count_rebased(f, w, g);
        match s.0 {
            Some((last, m)) => {
                let mb = |i: int| m.bit(i);
                let h = |i: int| 1 <= i && i + g < w && f(i + g);
                assert forall|i: int| 0 <= i < w implies #[trigger] mb(i) == h(i) by {}
                lemma_count_true_agree(mb, h, w);
                lemma_set_indices_len(mb, w);
            },
            None => {},
        }
    }
}

/// A block newer than the old one gives exactly its freshly acknowledged ids: the new index
/// itself, and bit `i` of the mask exactly when the new block acknowledges the id `i + 1` steps
/// before its index and the old block does not. So it counts one more than the ids of the new
/// window acknowledged by the new block and not by the old one.
pub proof fn law_new_sequence_holds_fresh_ids<B: Bitmask>(
    new: AckBlock<B>,
    old: AckBlock<B>,
    r: AckSequence<B>,
)
    requires
        newer(new.index, old.index),
        r.new_result(new, old),
    ensures
        r.0 is Some,
        r.0->Some_0.0 == new.index,
        new.acks(new.index.0) && !old.acks(new.index.0),
        forall|i: int|
            0 <= i < B::width() ==> (#[trigger] r.0->Some_0.1.bit(i) <==> (new.acks(
                wrap_add(new.index.0, -1 - i),
            ) && !old.acks(wrap_add(new.index.0, -1 - i)))),
        r.ids().len() == 1 + count_true(
            |i: int|
                new.acks(wrap_add(new.index.0, -1 - i)) && !old.acks(
                    wrap_add(new.index.0, -1 - i),
                ),
            B::width() as int,
        ),
{
    B::lemma_width();
    B::lemma_bit_range(new.mask);
    B::lemma_bit_range(old.mask);
    let w = B::width() as int;
    let m = r.0->Some_0.1;
    B::lemma_bit_range(m);
    let f = |i: int|
        new.acks(wrap_add(new.index.0, -1 - i)) && !old.acks(wrap_add(new.index.0, -1 - i));
    let d = wrap_dist(new.index.0, old.index.0);
    assert forall|i: int| 0 <= i < w implies #[trigger] m.bit(i) == f(i) by {
        let id = wrap_add(new.index.0, -1 - i);
        assert(wrap_dist(new.index.0, id) == i + 1);
        if i == d - 1 {
            assert(id == old.index.0);
        } else if d <= i {
            assert(id != old.index.0);
            assert(wrap_dist(old.index.0, id) == i - d + 1);
        } else {
            assert(id != old.index.0);
            assert(wrap_dist(old.index.0, id) > w);
        }
    }
    let mb = |i: int| m.bit(i);
    lemma_count_true_agree(mb, f, w);
    lemma_set_indices_len(mb, w);
}

/// Two blocks with equal index give exactly as many ids as the new block acknowledges and the
/// old one does not.
pub proof fn law_equal_index_sequence_counts_fresh_ids<B: Bitmask>(
    new: AckBlock<B>,
    old: AckBlock<B>,
    r: AckSequence<B>,
)
    requires
        new.index == old.index,
        r.new_result(new, old),
    ensures
        !(new.acks(new.index.0) && !old.acks(new.index.0)),
        r.ids().len() == count_true(
            |i: int|
                new.acks(wrap_add(new.index.0, -1 - i)) && !old.acks(
                    wrap_add(new.index.0, -1 - i),
                ),
            B::width() as int,
        ),
{
    B::lemma_width();
    B::lemma_bit_range(new.mask);
    B::lemma_bit_range(old.mask);
    let w = B::width() as int;
    law_matching_yields_fresh_bits(new, old, r);
    let f = |i: int|
        new.acks(wrap_add(new.index.0, -1 - i)) && !old.acks(wrap_add(new.index.0, -1 - i));
    let g = fresh_bits(new.mask, old.mask);
    assert forall|i: int| 0 <= i < w implies #[trigger] g(i) == f(i) by {
        let id = wrap_add(new.index.0, -1 - i);
        assert(wrap_dist(new.index.0, id) == i + 1);
    }
    lemma_count_true_agree(g, f, w);
}

/// The indices at which `f` holds lie in `0..n` and increase strictly.
pub proof fn lemma_set_indices_sorted(f: spec_fn(int) -> bool, n: int)
    ensures
        forall|i: int|
            0 <= i < set_indices(f, n).len() ==> 0 <= #[trigger] set_indices(f, n)[i] < n,
        forall|i: int, j: int|
            0 <= i < j < set_indices(f, n).len() ==> #[trigger] set_indices(f, n)[i]
                < #[trigger] set_indices(f, n)[j],
    decreases n,
{
    if n > 0 {
        lemma_set_indices_sorted(f, n - 1);
        let s = set_indices(f, n - 1);
        if f(n - 1) {
            assert(set_indices(f, n) =~= s.push(n - 1));
        } else {
            assert(set_indices(f, n) =~= s);
        }
    }
}

/// The ids a sequence yields increase strictly in the wrap-around order: each one is newer than
/// every id yielded before it.
pub proof fn law_ack_sequence_ids_increase<B: Bitmask>(s: AckSequence<B>, i: int, j: int)
    requires
        0 <= i < j < s.ids().len(),
    ensures
        newer(SeqId(s.ids()[j]), SeqId(s.ids()[i])),
{
    B::lemma_width();
    match s.0 {
        Some((last, mask)) => {
            let w = B::width() as int;
            let f = |k: int| mask.bit(k);
            let idx = set_indices(f, w);
            lemma_set_indices_sorted(f, w);
            let h = |k: int| wrap_add(last.0, k - B::width());
            assert(s.ids() == idx.map_values(h).push(last.0));
            assert(0 <= idx[i] < w);
            assert(s.ids()[i] == wrap_add(last.0, idx[i] - w));
            if j < idx.len() {
                assert(idx[i] < idx[j] < w);
                assert(s.ids()[j] == wrap_add(last.0, idx[j] - w));
            } else {
                assert(s.ids()[j] == last.0);
            }
        },
        None => {},
    }
}

/// There are as many indices at which `f` holds as `count_true` counts.
pub proof fn lemma_set_indices_len(f: spec_fn(int) -> bool, n: int)
    ensures
        set_indices(f, n).len() == count_true(f, n),
    decreases n,
{
    if n > 0 {
        lemma_set_indices_len(f, n - 1);
    }
}

} // verus!

verus! {

/// Of two distinct sequence ids, at most one is newer than the other.
pub proof fn law_newer_asymmetric(a: SeqId, b: SeqId)
    ensures
        newer(a, b) ==> !newer(b, a),
{
}

/// Two distinct sequence ids that are not exactly half of the id range apart are ordered: one
/// of them is newer.
pub proof fn law_newer_total(a: SeqId, b: SeqId)
    requires
        a != b,
        wrap_dist(a.0, b.0) != 0x8000,
    ensures
        newer(a, b) || newer(b, a),
{
}

/// The next sequence id is newer than the current one, also across the wrap-around.
pub proof fn law_next_is_newer(a: SeqId)
    ensures
        newer(SeqId(wrap_add(a.0, 1)), a),
{
}

/// Subtracting a sequence id from itself advanced by `k` gives `k` back.
pub proof fn law_add_then_sub(a: SeqId, k: u16)
    ensures
        wrap_dist(wrap_add(a.0, k as int), a.0) == k,
{
}

/// [`AckBlock::max_safe_set_idx`] is the largest id ahead of a block's index that can be set
/// without a hole: advancing by `k` steps, up to one past the mask width, succeeds exactly when
/// `k` does not exceed the run of set top bits.
pub proof fn law_max_safe_set_idx<B: Bitmask>(b: AckBlock<B>, k: int)
    requires
        1 <= k <= B::width() + 1,
    ensures
        !b.hole_would_form(wrap_add(b.index.0, k)) <==> k <= top_ones(b.mask),
{
    B::lemma_width();
    let h = top_ones(b.mask);
    lemma_top_ones_exists(b.mask);
    let id = wrap_add(b.index.0, k);
    assert(wrap_dist(id, b.index.0) == k);
    assert(wrap_dist(b.index.0, id) == 0x1_0000 - k);
    if k <= h {
        assert(top_run(b.mask, k));
    } else if k <= B::width() {
        assert(!b.mask.bit(B::width() - 1 - h));
        assert(!top_run(b.mask, k));
    }
}

/// Every mask has a run of set top bits.
pub proof fn lemma_top_ones_exists<B: Bitmask>(m: B)
    ensures
        is_highest_ones(m, top_ones(m)),
{
    B::lemma_width();
    lemma_top_run_extends(m, 0);
}

/// A run of `r` set top bits extends to a maximal one.
proof fn lemma_top_run_extends<B: Bitmask>(m: B, r: int)
    requires
        0 <= r <= B::width(),
        top_run(m, r),
    ensures
        exists|h: int| is_highest_ones(m, h),
    decreases B::width() - r,
{
    if r < B::width() && m.bit(B::width() - 1 - r) {
        assert(top_run(m, r + 1));
        lemma_top_run_extends(m, r + 1);
    } else {
        assert(is_highest_ones(m, r));
    }
}

} // verus!
