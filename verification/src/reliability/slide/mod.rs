//! Sliding windows over a sequence of elements.
use vstd::prelude::*;

mod iter;
mod traits;

pub use iter::{SlideIter, SlideIterMut, TrackingSlideIter, TrackingSlideIterMut};

verus! {

/// A sliding window with maximum size into a sequence of elements.
/// Can be used to keep track of `N` latest elements efficiently.
///
/// Note that by itself `Slide` can be counter-intuitive, as indexing is relative to the start of
/// the `Slide` and not the collection it's sliding over. Consider using [`TrackingSlide`] if such
/// behavior is desired.
#[derive(Debug)]
pub struct Slide<T, const N: usize> {
    length: usize,
    start: usize,
    items: Vec<T>,
}

impl<T, const N: usize> Slide<T, N> {
    /// The elements are stored from `start` on, wrapping around the end of the storage.
    #[verifier::type_invariant]
    spec fn well_formed(self) -> bool {
        &&& self.items@.len() == self.length
        &&& self.length <= N
        &&& (self.start == 0 || (self.length == N && self.start < N))
    }

    /// Storage position of the `i`-th oldest element.
    spec fn slot(self, i: int) -> int {
        if self.start + i < self.length {
            self.start + i
        } else {
            self.start + i - self.length
        }
    }

    /// The elements, oldest first.
    pub closed spec fn view(self) -> Seq<T> {
        Seq::new(self.length as nat, |i: int| self.items@[self.slot(i)])
    }

    /// Storage position of the oldest element; [`fast_iter`](Self::fast_iter) yields the
    /// elements rotated by it.
    pub closed spec fn rotation(self) -> int {
        self.start as int
    }

    /// Construct a new, empty slide.
    pub fn new() -> (r: Self)
        ensures
            r@ == Seq::<T>::empty(),
    {
        let r = Slide { length: 0, start: 0, items: Vec::new() };
        assert(r@ =~= Seq::<T>::empty());
        r
    }

    /// Construct a new, empty slide on the heap.
    pub fn boxed() -> (r: Box<Self>)
        ensures
            r@ == Seq::<T>::empty(),
    {
        Box::new(Self::new())
    }

    /// Get the number of elements.
    pub fn len(&self) -> (r: usize)
        ensures
            r == self@.len(),
            r <= N,
    {
        proof {
            use_type_invariant(self);
        }
        self.length
    }

    pub fn is_empty(&self) -> (r: bool)
        ensures
            r == (self@.len() == 0),
    {
        self.length == 0
    }

    pub fn is_full(&self) -> (r: bool)
        ensures
            r == (self@.len() == N),
    {
        self.length == N
    }

    /// Get the `index`-th oldest element of the slide.
    ///
    /// Note that elements are overwritten when a new one is pushed to a full slide.
    pub fn get(&self, index: usize) -> (r: Option<&T>)
        requires
            index < N,
        ensures
            r == if index < self@.len() {
                Some(&self@[index as int])
            } else {
                None
            },
    {
        proof {
            use_type_invariant(self);
        }
        if index >= self.length {
            return None;
        }
        let slot = if index < self.length - self.start {
            self.start + index
        } else {
            index - (self.length - self.start)
        };
        Some(&self.items[slot])
    }

    /// Get a mutable reference to the `index`-th oldest element of the slide.
    pub fn get_mut(&mut self, index: usize) -> (r: Option<&mut T>)
        requires
            index < N,
        ensures
            index >= old(self)@.len() ==> r is None && *final(self) == *old(self),
            index < old(self)@.len() ==> r is Some && *r->Some_0 == old(self)@[index as int],
            index < old(self)@.len() ==> final(self)@ == old(self)@.update(
                index as int,
                *final(r->Some_0),
            ),
    {
        proof {
            use_type_invariant(&*self);
        }
        if index >= self.length {
            return None;
        }
        let slot = if index < self.length - self.start {
            self.start + index
        } else {
            index - (self.length - self.start)
        };
        Some(&mut self.items[slot])
    }
}

impl<T, const N: usize> Slide<T, N> {
    /// The oldest element, if any.
    pub fn oldest(&self) -> (r: Option<&T>)
        requires
            N > 0,
        ensures
            r == if self@.len() > 0 {
                Some(&self@[0])
            } else {
                None
            },
    {
        self.get(0)
    }

    /// A mutable reference to the oldest element, if any.
    pub fn oldest_mut(&mut self) -> (r: Option<&mut T>)
        requires
            N > 0,
        ensures
            old(self)@.len() == 0 ==> r is None && *final(self) == *old(self),
            old(self)@.len() > 0 ==> r is Some && *r->Some_0 == old(self)@[0],
            old(self)@.len() > 0 ==> final(self)@ == old(self)@.update(0, *final(r->Some_0)),
    {
        self.get_mut(0)
    }

    /// Append an element to the slide, possibly evicting the oldest element.
    ///
    /// Returns `Some(evicted)` if an eviction occurred (the slide was full).
    pub fn push(&mut self, item: T) -> (r: Option<T>)
        requires
            N > 0,
        ensures
            old(self)@.len() <= N,
            old(self)@.len() < N ==> r is None && final(self)@ == old(self)@.push(item),
            old(self)@.len() == N ==> r == Some(old(self)@[0]) && final(self)@ == old(
                self,
            )@.drop_first().push(item),
    {
        let mut current = Slide::new();
        core::mem::swap(self, &mut current);
        proof {
            use_type_invariant(&current);
        }
        let Slide { length, start, mut items } = current;
        if length == N {
            let mut evicted = item;
            core::mem::swap(&mut items[start], &mut evicted);
            let next = Slide { length, start: inc_start(start, N), items };
            proof {
                assert(evicted == current@[0]);
                assert(next@ =~= current@.drop_first().push(item));
            }
            *self = next;
            Some(evicted)
        } else {
            items.push(item);
            let next = Slide { length: length + 1, start, items };
            proof {
                assert(next@ =~= current@.push(item));
            }
            *self = next;
            None
        }
    }
}

/// Position of the `i`-th oldest of `len` elements stored from `rot` on, wrapping around.
pub open spec fn rotated(rot: int, i: int, len: int) -> int {
    if rot + i < len {
        rot + i
    } else {
        rot + i - len
    }
}

impl<T, const N: usize> Slide<T, N> {
    /// Get the elements in storage order. Note that this order is NOT guaranteed to be the
    /// insertion order: the `i`-th oldest element sits at position
    /// `rotated(self.rotation(), i, len)`.
    pub fn fast_iter(&self) -> (r: &[T])
        ensures
            r@.len() == self@.len(),
            0 <= self.rotation() && (self.rotation() == 0 || self.rotation() < self@.len()),
            forall|i: int|
                0 <= i < self@.len() ==> r@[rotated(self.rotation(), i, self@.len() as int)]
                    == #[trigger] self@[i],
    {
        proof {
            use_type_invariant(self);
        }
        self.items.as_slice()
    }

    /// Map all the elements in the slide, returning a new slide.
    pub fn map<A, F: Fn(T) -> A>(self, f: F) -> (r: Slide<A, N>)
        requires
            forall|i: int| 0 <= i < self@.len() ==> call_requires(f, (#[trigger] self@[i],)),
        ensures
            r@.len() == self@.len(),
            r.rotation() == self.rotation(),
            forall|i: int| 0 <= i < self@.len() ==> call_ensures(f, (self@[i],), #[trigger] r@[i]),
    {
        proof {
            use_type_invariant(&self);
        }
        let ghost view = self@;
        let ghost this = self;
        let Slide { length, start, mut items } = self;
        let ghost orig = items@;
        proof {
            assert forall|j: int| 0 <= j < length implies call_requires(f, (#[trigger] orig[j],)) by {
                let i = if j >= start {
                    j - start
                } else {
                    j + length - start
                };
                assert(this.slot(i) == j);
                assert(view[i] == orig[j]);
            }
        }
        let mut out: Vec<A> = Vec::new();
        let mut k: usize = 0;
        while k < length
            invariant
                k <= length,
                length == orig.len(),
                items@ == orig.subrange(k as int, length as int),
                out@.len() == k,
                forall|j: int| 0 <= j < k ==> call_ensures(f, (orig[j],), #[trigger] out@[j]),
                forall|j: int| 0 <= j < length ==> call_requires(f, (#[trigger] orig[j],)),
            decreases length - k,
        {
            let item = items.remove(0);
            assert(item == orig[k as int]);
            let mapped = f(item);
            out.push(mapped);
            k = k + 1;
            assert(items@ =~= orig.subrange(k as int, length as int));
        }
        let r = Slide { length, start, items: out };
        proof {
            assert forall|i: int| 0 <= i < view.len() implies call_ensures(f, (view[i],), #[trigger] r@[i]) by {
                assert(r.slot(i) == this.slot(i));
            }
        }
        r
    }

    /// Map all the elements of a slide on the heap.
    pub fn map_boxed<A, F: Fn(T) -> A>(self: Box<Self>, f: F) -> (r: Box<Slide<A, N>>)
        requires
            forall|i: int| 0 <= i < self@.len() ==> call_requires(f, (#[trigger] self@[i],)),
        ensures
            r@.len() == self@.len(),
            r.rotation() == self.rotation(),
            forall|i: int| 0 <= i < self@.len() ==> call_ensures(f, (self@[i],), #[trigger] r@[i]),
    {
        Box::new((*self).map(f))
    }

    /// A slide with the same shape as `self` holding `items` in storage order.
    pub(crate) fn with_items<A>(self, items: Vec<A>) -> (r: Slide<A, N>)
        requires
            items@.len() == self@.len(),
        ensures
            r@.len() == self@.len(),
            r.rotation() == self.rotation(),
            forall|i: int|
                0 <= i < self@.len() ==> #[trigger] r@[i] == items@[rotated(self.rotation(), i, self@.len() as int)],
    {
        proof {
            use_type_invariant(&self);
        }
        Slide { length: self.length, start: self.start, items }
    }

    /// Append all the elements of `items` in order. Elements that would be evicted right away
    /// are skipped.
    pub fn extend(&mut self, items: Vec<T>)
        requires
            N > 0,
        ensures
            final(self)@ == last_n(old(self)@ + items@, N as int),
    {
        proof {
            use_type_invariant(&*self);
        }
        let ghost orig = items@;
        let ghost start_view = self@;
        let mut items = items;
        let total = items.len();
        let skip = if total > N {
            total - N
        } else {
            0
        };
        let mut k: usize = 0;
        while k < skip
            invariant
                k <= skip <= total,
                total == orig.len(),
                items@ == orig.subrange(k as int, total as int),
            decreases skip - k,
        {
            items.remove(0);
            k = k + 1;
            assert(items@ =~= orig.subrange(k as int, total as int));
        }
        proof {
            assert(start_view + orig.subrange(skip as int, skip as int) =~= start_view);
            lemma_last_n_small(start_view, N as int);
            if skip > 0 {
                lemma_last_n_skip(start_view, orig, skip as int, N as int);
            }
        }
        while k < total
            invariant
                N > 0,
                skip <= k <= total,
                total == orig.len(),
                items@ == orig.subrange(k as int, total as int),
                self@ == last_n(start_view + orig.subrange(skip as int, k as int), N as int),
                last_n(start_view + orig.subrange(skip as int, total as int), N as int) == last_n(
                    start_view + orig,
                    N as int,
                ),
            decreases total - k,
        {
            let item = items.remove(0);
            let ghost before = start_view + orig.subrange(skip as int, k as int);
            self.push(item);
            proof {
                lemma_last_n_push(before, item, N as int);
                assert(before.push(item) =~= start_view + orig.subrange(skip as int, k + 1));
            }
            k = k + 1;
            assert(items@ =~= orig.subrange(k as int, total as int));
        }
    }
}

/// The last `n` elements of `s` (all of them when there are fewer).
pub open spec fn last_n<T>(s: Seq<T>, n: int) -> Seq<T> {
    if s.len() <= n {
        s
    } else {
        s.subrange(s.len() - n, s.len() as int)
    }
}

proof fn lemma_last_n_small<T>(s: Seq<T>, n: int)
    requires
        s.len() <= n,
    ensures
        last_n(s, n) == s,
{
}

/// Appending to the last `n` elements, evicting the oldest when there are `n` already, keeps
/// the last `n` elements.
proof fn lemma_last_n_push<T>(s: Seq<T>, x: T, n: int)
    requires
        n > 0,
    ensures
        last_n(s, n).len() < n ==> last_n(s, n).push(x) == last_n(s.push(x), n),
        last_n(s, n).len() == n ==> last_n(s, n).drop_first().push(x) == last_n(s.push(x), n),
        last_n(s, n).len() <= n,
{
    if s.len() < n {
    } else if s.len() == n {
        assert(s.drop_first().push(x) =~= s.push(x).subrange(1, n + 1));
    } else {
        assert(s.subrange(s.len() - n, s.len() as int).drop_first().push(x) =~= s.push(x).subrange(
            s.len() + 1 - n,
            s.len() + 1 as int,
        ));
    }
}

/// Elements of `items` that a window of `n` would evict anyway may be skipped.
proof fn lemma_last_n_skip<T>(s: Seq<T>, items: Seq<T>, skip: int, n: int)
    requires
        0 < skip,
        items.len() == skip + n,
        n > 0,
    ensures
        last_n(s + items.subrange(skip, items.len() as int), n) == last_n(s + items, n),
{
    assert(last_n(s + items, n) =~= items.subrange(skip, items.len() as int));
    assert(last_n(s + items.subrange(skip, items.len() as int), n) =~= items.subrange(
        skip,
        items.len() as int,
    ));
}

/// The storage position after `start` in a storage of `n` slots.
fn inc_start(start: usize, n: usize) -> (r: usize)
    requires
        start < n,
    ensures
        r == if start + 1 == n {
            0
        } else {
            start + 1
        },
{
    proof {
        if start + 1 < n {
            vstd::arithmetic::div_mod::lemma_small_mod((start + 1) as nat, n as nat);
        } else {
            vstd::arithmetic::div_mod::lemma_mod_self_0(n as int);
        }
    }
    (start + 1) % n
}

impl<T: Clone, const N: usize> Clone for Slide<T, N> {
    fn clone(&self) -> (r: Self)
        ensures
            r@.len() == self@.len(),
            r.rotation() == self.rotation(),
            forall|i: int| 0 <= i < self@.len() ==> cloned::<T>(self@[i], #[trigger] r@[i]),
    {
        proof {
            use_type_invariant(self);
        }
        let items = self.items.clone();
        let r = Slide { length: self.length, start: self.start, items };
        assert forall|i: int| 0 <= i < self@.len() implies cloned::<T>(self@[i], #[trigger] r@[i]) by {
            let k = self.slot(i);
            assert(cloned::<T>(self.items[k], items[k]));
        }
        r
    }
}

} // verus!

verus! {

/// Numeric trait for tracking a sequence.
pub trait Track: Sized {
    /// [`inc`](Self::inc) can step `self` (it does not overflow).
    spec fn can_inc(&self) -> bool;

    /// The value after one step.
    spec fn stepped(&self) -> Self;

    /// `self` comes before `other` in the tracked sequence.
    spec fn before(&self, other: &Self) -> bool;

    /// [`relative_to`](Self::relative_to) can compute the distance from `other` to `self`.
    spec fn rel_defined(&self, other: &Self) -> bool;

    /// The number of steps from `other` to `self`.
    spec fn rel(&self, other: &Self) -> int;

    /// A value that does not come before another has a distance from it.
    proof fn lemma_rel_defined(a: &Self, b: &Self)
        ensures
            !a.before(b) ==> a.rel_defined(b),
    ;

    /// Increment by 1 step.
    fn inc(&mut self)
        requires
            old(self).can_inc(),
        ensures
            *final(self) == old(self).stepped(),
    ;

    /// Get a relative index, comparing to other.
    fn relative_to(&self, other: &Self) -> (r: usize)
        requires
            self.rel_defined(other),
        ensures
            r == self.rel(other),
    ;

    /// Whether `self` comes before `other` (the `<` of the tracked sequence).
    fn is_before(&self, other: &Self) -> (r: bool)
        ensures
            r == self.before(other),
    ;
}

/// `i` can be stepped `k` times in a row.
pub open spec fn can_step<I: Track>(i: I, k: nat) -> bool
    decreases k,
{
    k == 0 || (i.can_inc() && can_step(i.stepped(), (k - 1) as nat))
}

/// `i` stepped `k` times.
pub open spec fn stepped_by<I: Track>(i: I, k: nat) -> I
    decreases k,
{
    if k == 0 {
        i
    } else {
        stepped_by(i.stepped(), (k - 1) as nat)
    }
}

impl<T: Clone, I: Track + Clone, const N: usize> Clone for TrackingSlide<T, I, N> {
    fn clone(&self) -> (r: Self)
        ensures
            r@.len() == self@.len(),
            cloned::<I>(self.first_index(), r.first_index()),
            forall|i: int| 0 <= i < self@.len() ==> cloned::<T>(self@[i], #[trigger] r@[i]),
    {
        TrackingSlide { slide: self.slide.clone(), first: self.first.clone() }
    }
}

/// The number of elements that fall out of a window of `n` holding `len` elements when `added`
/// more are appended.
pub open spec fn evictions(len: int, added: int, n: int) -> nat {
    if len + added > n {
        (len + added - n) as nat
    } else {
        0
    }
}

/// A version of [`Slide`] that keeps track of the number of pushes, allowing more intuitive
/// indexing: the oldest element has index `first`, the next one `first` stepped once, and so on.
#[derive(Debug)]
pub struct TrackingSlide<T, I: Track, const N: usize> {
    slide: Slide<T, N>,
    first: I,
}

impl<T, I: Track, const N: usize> TrackingSlide<T, I, N> {
    /// The elements, oldest first.
    pub closed spec fn view(self) -> Seq<T> {
        self.slide@
    }

    /// The index of the oldest element.
    pub closed spec fn first_index(self) -> I {
        self.first
    }

    /// The underlying slide.
    pub closed spec fn inner(self) -> Slide<T, N> {
        self.slide
    }

    pub fn new(first: I) -> (r: Self)
        ensures
            r@ == Seq::<T>::empty(),
            r.first_index() == first,
    {
        TrackingSlide { slide: Slide::new(), first }
    }

    pub fn boxed(first: I) -> (r: Box<Self>)
        ensures
            r@ == Seq::<T>::empty(),
            r.first_index() == first,
    {
        Box::new(Self::new(first))
    }

    /// The position of `index` in the slide, if it lies within it.
    pub open spec fn position(self, index: I) -> Option<int> {
        if index.before(&self.first_index()) || index.rel(&self.first_index()) >= self@.len() {
            None
        } else {
            Some(index.rel(&self.first_index()))
        }
    }

    /// Get the element at the provided index if it's within the slide.
    pub fn get(&self, index: &I) -> (r: Option<&T>)
        ensures
            r == match self.position(*index) {
                Some(k) => Some(&self@[k]),
                None => None,
            },
    {
        if index.is_before(&self.first) {
            return None;
        }
        proof {
            I::lemma_rel_defined(index, &self.first);
        }
        let k = index.relative_to(&self.first);
        let len = self.slide.len();
        if k >= len {
            return None;
        }
        self.slide.get(k)
    }

    /// Get a mutable reference to the element at the provided index if it's within the slide.
    pub fn get_mut(&mut self, index: &I) -> (r: Option<&mut T>)
        ensures
            old(self).position(*index) is None ==> r is None && *final(self) == *old(self),
            old(self).position(*index) is Some ==> {
                let k = old(self).position(*index)->Some_0;
                &&& r is Some
                &&& *r->Some_0 == old(self)@[k]
                &&& final(self)@ == old(self)@.update(k, *final(r->Some_0))
                &&& final(self).first_index() == old(self).first_index()
            },
    {
        if index.is_before(&self.first) {
            return None;
        }
        proof {
            I::lemma_rel_defined(index, &self.first);
        }
        let k = index.relative_to(&self.first);
        let len = self.slide.len();
        if k >= len {
            return None;
        }
        self.slide.get_mut(k)
    }

    /// Append an element to the slide, possibly evicting the oldest element.
    ///
    /// Returns `Some(evicted)` if an eviction occurred (the slide was full).
    pub fn push(&mut self, item: T) -> (r: Option<T>)
        requires
            N > 0,
            old(self)@.len() == N ==> old(self).first_index().can_inc(),
        ensures
            old(self)@.len() <= N,
            old(self)@.len() < N ==> {
                &&& r is None
                &&& final(self)@ == old(self)@.push(item)
                &&& final(self).first_index() == old(self).first_index()
            },
            old(self)@.len() == N ==> {
                &&& r == Some(old(self)@[0])
                &&& final(self)@ == old(self)@.drop_first().push(item)
                &&& final(self).first_index() == old(self).first_index().stepped()
            },
    {
        if self.slide.is_full() {
            self.first.inc();
        }
        self.slide.push(item)
    }

    /// Map all the elements in the slide to a different type. The tracking stays the same.
    pub fn map_elems<A, F: Fn(T) -> A>(self, f: F) -> (r: TrackingSlide<A, I, N>)
        requires
            forall|i: int| 0 <= i < self@.len() ==> call_requires(f, (#[trigger] self@[i],)),
        ensures
            r@.len() == self@.len(),
            r.first_index() == self.first_index(),
            r.inner().rotation() == self.inner().rotation(),
            forall|i: int| 0 <= i < self@.len() ==> call_ensures(f, (self@[i],), #[trigger] r@[i]),
    {
        assert(self@ == self.slide@);
        TrackingSlide { slide: self.slide.map(f), first: self.first }
    }

    /// Map all the elements in the slide to a different type, as well as the index used for
    /// tracking.
    pub fn map<NT, NI: Track, FE: Fn(T) -> NT, FI: FnOnce(I) -> NI>(
        self,
        elements: FE,
        index: FI,
    ) -> (r: TrackingSlide<NT, NI, N>)
        requires
            forall|i: int| 0 <= i < self@.len() ==> call_requires(elements, (#[trigger] self@[i],)),
            call_requires(index, (self.first_index(),)),
        ensures
            r@.len() == self@.len(),
            r.inner().rotation() == self.inner().rotation(),
            call_ensures(index, (self.first_index(),), r.first_index()),
            forall|i: int|
                0 <= i < self@.len() ==> call_ensures(elements, (self@[i],), #[trigger] r@[i]),
    {
        assert(self@ == self.slide@);
        TrackingSlide { slide: self.slide.map(elements), first: index(self.first) }
    }

    /// Map elements of the slide as well as its index used for tracking, on the heap.
    pub fn map_boxed<NT, NI: Track, FE: Fn(T) -> NT, FI: FnOnce(I) -> NI>(
        self: Box<Self>,
        elements: FE,
        index: FI,
    ) -> (r: Box<TrackingSlide<NT, NI, N>>)
        requires
            forall|i: int| 0 <= i < self@.len() ==> call_requires(elements, (#[trigger] self@[i],)),
            call_requires(index, (self.first_index(),)),
        ensures
            r@.len() == self@.len(),
            r.inner().rotation() == self.inner().rotation(),
            call_ensures(index, (self.first_index(),), r.first_index()),
            forall|i: int|
                0 <= i < self@.len() ==> call_ensures(elements, (self@[i],), #[trigger] r@[i]),
    {
        Box::new((*self).map(elements, index))
    }

    /// Map the elements of the slide, on the heap. The tracking stays the same.
    pub fn map_boxed_elems<NT, FE: Fn(T) -> NT>(self: Box<Self>, f: FE) -> (r: Box<
        TrackingSlide<NT, I, N>,
    >)
        requires
            forall|i: int| 0 <= i < self@.len() ==> call_requires(f, (#[trigger] self@[i],)),
        ensures
            r@.len() == self@.len(),
            r.first_index() == self.first_index(),
            r.inner().rotation() == self.inner().rotation(),
            forall|i: int| 0 <= i < self@.len() ==> call_ensures(f, (self@[i],), #[trigger] r@[i]),
    {
        Box::new((*self).map_elems(f))
    }

    pub fn len(&self) -> (r: usize)
        ensures
            r == self@.len(),
            r <= N,
    {
        self.slide.len()
    }

    pub fn is_full(&self) -> (r: bool)
        ensures
            r == (self@.len() == N),
    {
        self.slide.is_full()
    }

    pub fn is_empty(&self) -> (r: bool)
        ensures
            r == (self@.len() == 0),
    {
        self.slide.is_empty()
    }

    /// The oldest element, if any.
    pub fn oldest(&self) -> (r: Option<&T>)
        requires
            N > 0,
        ensures
            r == if self@.len() > 0 {
                Some(&self@[0])
            } else {
                None
            },
    {
        self.slide.oldest()
    }

    /// A mutable reference to the oldest element, if any.
    pub fn oldest_mut(&mut self) -> (r: Option<&mut T>)
        requires
            N > 0,
        ensures
            old(self)@.len() == 0 ==> r is None && *final(self) == *old(self),
            old(self)@.len() > 0 ==> r is Some && *r->Some_0 == old(self)@[0],
            old(self)@.len() > 0 ==> final(self)@ == old(self)@.update(0, *final(r->Some_0)),
            final(self).first_index() == old(self).first_index(),
    {
        self.slide.oldest_mut()
    }

    /// Get the elements in storage order. See [`Slide::fast_iter`].
    pub fn fast_iter(&self) -> (r: &[T])
        ensures
            r@.len() == self@.len(),
            forall|i: int|
                0 <= i < self@.len() ==> r@[rotated(self.inner().rotation(), i, self@.len() as int)]
                    == #[trigger] self@[i],
    {
        self.slide.fast_iter()
    }

    /// Append all the elements of `items` in order, stepping the tracking index once for every
    /// element that falls out of the window. Elements that would be evicted right away are
    /// skipped.
    pub fn extend(&mut self, items: Vec<T>)
        requires
            N > 0,
            can_step(old(self).first_index(), evictions(old(self)@.len() as int, items@.len() as int, N as int)),
        ensures
            final(self)@ == last_n(old(self)@ + items@, N as int),
            final(self).first_index() == stepped_by(
                old(self).first_index(),
                evictions(old(self)@.len() as int, items@.len() as int, N as int),
            ),
    {
        let ghost orig = items@;
        let ghost start_view = self@;
        let ghost target = stepped_by(
            self.first,
            evictions(self@.len() as int, items@.len() as int, N as int),
        );
        let mut items = items;
        let total = items.len();
        let len0 = self.slide.len();
        let skip = if total > N {
            total - N
        } else {
            0
        };
        let mut k: usize = 0;
        while k < skip
            invariant
                k <= skip <= total,
                total == orig.len(),
                items@ == orig.subrange(k as int, total as int),
                self@ == start_view,
                len0 == start_view.len(),
                len0 <= N,
                skip == if total > N { total - N } else { 0 },
                can_step(self.first, (evictions(len0 as int, total as int, N as int) - k) as nat),
                stepped_by(self.first, (evictions(len0 as int, total as int, N as int) - k) as nat)
                    == target,
            decreases skip - k,
        {
            items.remove(0);
            self.first.inc();
            k = k + 1;
            assert(items@ =~= orig.subrange(k as int, total as int));
        }
        proof {
            assert(start_view + orig.subrange(skip as int, skip as int) =~= start_view);
            lemma_last_n_small(start_view, N as int);
            if skip > 0 {
                lemma_last_n_skip(start_view, orig, skip as int, N as int);
            }
        }
        while k < total
            invariant
                N > 0,
                skip <= k <= total,
                total == orig.len(),
                items@ == orig.subrange(k as int, total as int),
                self@ == last_n(start_view + orig.subrange(skip as int, k as int), N as int),
                last_n(start_view + orig.subrange(skip as int, total as int), N as int) == last_n(
                    start_view + orig,
                    N as int,
                ),
                can_step(self.first, evictions(self@.len() as int, (total - k) as int, N as int)),
                stepped_by(self.first, evictions(self@.len() as int, (total - k) as int, N as int))
                    == target,
            decreases total - k,
        {
            let item = items.remove(0);
            let ghost before = start_view + orig.subrange(skip as int, k as int);
            proof {
                lemma_last_n_push(before, item, N as int);
            }
            self.push(item);
            proof {
                assert(before.push(item) =~= start_view + orig.subrange(skip as int, k + 1));
            }
            k = k + 1;
            assert(items@ =~= orig.subrange(k as int, total as int));
        }
    }

    /// The index of the oldest element.
    pub(crate) fn first(&self) -> (r: &I)
        ensures
            *r == self.first_index(),
    {
        &self.first
    }

    /// A slide with the same shape and tracking as `self` holding `items` in storage order.
    pub(crate) fn with_items<A>(self, items: Vec<A>) -> (r: TrackingSlide<A, I, N>)
        requires
            items@.len() == self@.len(),
        ensures
            r@.len() == self@.len(),
            r.first_index() == self.first_index(),
            forall|i: int|
                0 <= i < self@.len() ==> #[trigger] r@[i] == items@[rotated(
                    self.inner().rotation(),
                    i,
                    self@.len() as int,
                )],
    {
        TrackingSlide { slide: self.slide.with_items(items), first: self.first }
    }
}

} // verus!
