//! Trait implementations for slides and tracking indices.
use vstd::prelude::*;
use super::super::seq::{SeqId, newer, wrap_add, wrap_dist};
use super::{Slide, Track, TrackingSlide};

verus! {

impl Track for u8 {
    open spec fn can_inc(&self) -> bool {
        *self < u8::MAX
    }

    open spec fn stepped(&self) -> Self {
        (*self + 1) as u8
    }

    open spec fn before(&self, other: &Self) -> bool {
        *self < *other
    }

    open spec fn rel_defined(&self, other: &Self) -> bool {
        *self >= *other
    }

    open spec fn rel(&self, other: &Self) -> int {
        (*self - *other) as usize as int
    }

    proof fn lemma_rel_defined(a: &Self, b: &Self) {
    }

    fn inc(&mut self) {
        *self += 1;
    }

    fn relative_to(&self, other: &Self) -> (r: usize) {
        (*self - *other) as usize
    }

    fn is_before(&self, other: &Self) -> (r: bool) {
        *self < *other
    }
}

impl Track for u16 {
    open spec fn can_inc(&self) -> bool {
        *self < u16::MAX
    }

    open spec fn stepped(&self) -> Self {
        (*self + 1) as u16
    }

    open spec fn before(&self, other: &Self) -> bool {
        *self < *other
    }

    open spec fn rel_defined(&self, other: &Self) -> bool {
        *self >= *other
    }

    open spec fn rel(&self, other: &Self) -> int {
        (*self - *other) as usize as int
    }

    proof fn lemma_rel_defined(a: &Self, b: &Self) {
    }

    fn inc(&mut self) {
        *self += 1;
    }

    fn relative_to(&self, other: &Self) -> (r: usize) {
        (*self - *other) as usize
    }

    fn is_before(&self, other: &Self) -> (r: bool) {
        *self < *other
    }
}

impl Track for u32 {
    open spec fn can_inc(&self) -> bool {
        *self < u32::MAX
    }

    open spec fn stepped(&self) -> Self {
        (*self + 1) as u32
    }

    open spec fn before(&self, other: &Self) -> bool {
        *self < *other
    }

    open spec fn rel_defined(&self, other: &Self) -> bool {
        *self >= *other
    }

    open spec fn rel(&self, other: &Self) -> int {
        (*self - *other) as usize as int
    }

    proof fn lemma_rel_defined(a: &Self, b: &Self) {
    }

    fn inc(&mut self) {
        *self += 1;
    }

    fn relative_to(&self, other: &Self) -> (r: usize) {
        (*self - *other) as usize
    }

    fn is_before(&self, other: &Self) -> (r: bool) {
        *self < *other
    }
}

impl Track for u64 {
    open spec fn can_inc(&self) -> bool {
        *self < u64::MAX
    }

    open spec fn stepped(&self) -> Self {
        (*self + 1) as u64
    }

    open spec fn before(&self, other: &Self) -> bool {
        *self < *other
    }

    open spec fn rel_defined(&self, other: &Self) -> bool {
        *self >= *other
    }

    open spec fn rel(&self, other: &Self) -> int {
        (*self - *other) as usize as int
    }

    proof fn lemma_rel_defined(a: &Self, b: &Self) {
    }

    fn inc(&mut self) {
        *self += 1;
    }

    fn relative_to(&self, other: &Self) -> (r: usize) {
        (*self - *other) as usize
    }

    fn is_before(&self, other: &Self) -> (r: bool) {
        *self < *other
    }
}

impl Track for usize {
    open spec fn can_inc(&self) -> bool {
        *self < usize::MAX
    }

    open spec fn stepped(&self) -> Self {
        (*self + 1) as usize
    }

    open spec fn before(&self, other: &Self) -> bool {
        *self < *other
    }

    open spec fn rel_defined(&self, other: &Self) -> bool {
        *self >= *other
    }

    open spec fn rel(&self, other: &Self) -> int {
        (*self - *other) as usize as int
    }

    proof fn lemma_rel_defined(a: &Self, b: &Self) {
    }

    fn inc(&mut self) {
        *self += 1;
    }

    fn relative_to(&self, other: &Self) -> (r: usize) {
        (*self - *other) as usize
    }

    fn is_before(&self, other: &Self) -> (r: bool) {
        *self < *other
    }
}

impl Track for SeqId {
    open spec fn can_inc(&self) -> bool {
        true
    }

    open spec fn stepped(&self) -> Self {
        SeqId(wrap_add(self.0, 1))
    }

    /// The order of `<` on sequence ids: distinct, and `self` not newer than `other`.
    open spec fn before(&self, other: &Self) -> bool {
        self.0 != other.0 && !newer(*self, *other)
    }

    open spec fn rel_defined(&self, other: &Self) -> bool {
        true
    }

    open spec fn rel(&self, other: &Self) -> int {
        wrap_dist(self.0, other.0)
    }

    proof fn lemma_rel_defined(a: &Self, b: &Self) {
    }

    fn inc(&mut self) {
        SeqId::inc(self)
    }

    fn relative_to(&self, other: &Self) -> (r: usize) {
        self.0.wrapping_sub(other.0) as usize
    }

    fn is_before(&self, other: &Self) -> (r: bool) {
        self.0 != other.0 && !self.is_newer_than(*other)
    }
}

impl<const N: usize, T> Default for Slide<T, N> {
    fn default() -> (r: Self)
        ensures
            r@ == Seq::<T>::empty(),
    {
        Self::new()
    }
}

impl<const N: usize, T, I: Track + Default> Default for TrackingSlide<T, I, N> {
    fn default() -> (r: Self)
        ensures
            r@ == Seq::<T>::empty(),
            call_ensures(I::default, (), r.first_index()),
    {
        Self::new(I::default())
    }
}

impl<const N: usize, T> core::ops::Index<usize> for Slide<T, N> {
    type Output = T;

    fn index(&self, index: usize) -> (r: &T)
        ensures
            *r == self@[index as int],
    {
        // the length never exceeds `N`, so an index below it is a valid argument of `get`
        let len = self.len();
        self.get(index).unwrap()
    }
}

impl<const N: usize, T> vstd::std_specs::core::IndexSpecImpl<usize> for Slide<T, N> {
    open spec fn index_req(&self, index: &usize) -> bool {
        *index < self@.len()
    }
}

impl<const N: usize, T, I: Track + Copy> core::ops::Index<I> for TrackingSlide<T, I, N> {
    type Output = T;

    fn index(&self, index: I) -> (r: &T)
        ensures
            *r == self@[self.position(index)->Some_0],
    {
        self.get(&index).unwrap()
    }
}

impl<const N: usize, T, I: Track + Copy> vstd::std_specs::core::IndexSpecImpl<I> for TrackingSlide<T, I, N> {
    open spec fn index_req(&self, index: &I) -> bool {
        self.position(*index) is Some
    }
}

impl<'a, const N: usize, T, I: Track> core::ops::Index<&'a I> for TrackingSlide<T, I, N> {
    type Output = T;

    fn index(&self, index: &'a I) -> (r: &T)
        ensures
            *r == self@[self.position(*index)->Some_0],
    {
        self.get(index).unwrap()
    }
}

impl<'a, const N: usize, T, I: Track> vstd::std_specs::core::IndexSpecImpl<&'a I> for TrackingSlide<T, I, N> {
    open spec fn index_req(&self, index: &&'a I) -> bool {
        self.position(**index) is Some
    }
}

} // verus!

verus! {

/// With sequence ids as tracking indices, the element pushed `k`-th after the oldest one is
/// found at the oldest index advanced by `k`, across the wrap-around too.
pub proof fn law_seq_tracking_positions<T, const N: usize>(s: TrackingSlide<T, SeqId, N>, k: int)
    requires
        0 <= k < s@.len(),
        s@.len() <= 0x8000,
    ensures
        s.position(SeqId(wrap_add(s.first_index().0, k))) == Some(k),
{
}

/// With integers as tracking indices, the element pushed `k`-th after the oldest one is found
/// at the oldest index plus `k`.
pub proof fn law_int_tracking_positions<T, const N: usize>(s: TrackingSlide<T, usize, N>, k: int)
    requires
        0 <= k < s@.len(),
        s.first_index() + k <= usize::MAX,
    ensures
        s.position((s.first_index() + k) as usize) == Some(k),
{
}

} // verus!
