//! Iterators over slides, in insertion order.
use vstd::prelude::*;
use super::{Slide, Track, TrackingSlide};

verus! {

/// Iterator over the elements of a [`Slide`] in insertion order.
pub struct SlideIter<'a, T: 'a, const N: usize> {
    slide: &'a Slide<T, N>,
    index: usize,
}

impl<'a, T: 'a, const N: usize> SlideIter<'a, T, N> {
    /// The slide iterated over.
    pub closed spec fn source(self) -> Slide<T, N> {
        *self.slide
    }

    /// The number of elements already yielded.
    pub closed spec fn position(self) -> int {
        self.index as int
    }

    pub fn new(slide: &'a Slide<T, N>) -> (r: Self)
        ensures
            r.source() == *slide,
            r.position() == 0,
    {
        SlideIter { slide, index: 0 }
    }

    /// Yield the next element, oldest first.
    pub fn next(&mut self) -> (r: Option<&'a T>)
        ensures
            final(self).source() == old(self).source(),
            old(self).position() < old(self).source()@.len() ==> {
                &&& r == Some(&old(self).source()@[old(self).position()])
                &&& final(self).position() == old(self).position() + 1
            },
            old(self).position() >= old(self).source()@.len() ==> {
                &&& r is None
                &&& final(self).position() == old(self).position()
            },
    {
        let slide: &'a Slide<T, N> = self.slide;
        if self.index < slide.len() {
            let result = slide.get(self.index);
            self.index = self.index + 1;
            result
        } else {
            None
        }
    }

    /// The number of elements not yet yielded, exactly (as lower and upper bound).
    pub fn size_hint(&self) -> (r: (usize, Option<usize>))
        ensures
            r.0 == if self.position() <= self.source()@.len() {
                self.source()@.len() - self.position()
            } else {
                0
            },
            r.1 == Some(r.0),
    {
        let len = self.slide.len();
        let size = if self.index <= len {
            len - self.index
        } else {
            0
        };
        (size, Some(size))
    }
}

/// Iterator over mutable references to the elements of a [`Slide`] in insertion order.
pub struct SlideIterMut<'a, T: 'a, const N: usize> {
    slide: &'a mut Slide<T, N>,
    index: usize,
}

impl<'a, T: 'a, const N: usize> SlideIterMut<'a, T, N> {
    /// The slide iterated over, as it currently is.
    pub closed spec fn source(self) -> Slide<T, N> {
        *self.slide
    }

    /// The number of elements already yielded.
    pub closed spec fn position(self) -> int {
        self.index as int
    }

    pub fn new(slide: &'a mut Slide<T, N>) -> (r: Self)
        ensures
            r.source() == *old(slide),
            r.position() == 0,
    {
        SlideIterMut { slide, index: 0 }
    }

    /// Yield a mutable reference to the next element, oldest first.
    pub fn next(&mut self) -> (r: Option<&mut T>)
        ensures
            old(self).position() < old(self).source()@.len() ==> {
                &&& r is Some
                &&& *r->Some_0 == old(self).source()@[old(self).position()]
                &&& final(self).source()@ == old(self).source()@.update(
                    old(self).position(),
                    *final(r->Some_0),
                )
                &&& final(self).position() == old(self).position() + 1
            },
            old(self).position() >= old(self).source()@.len() ==> {
                &&& r is None
                &&& final(self).source() == old(self).source()
                &&& final(self).position() == old(self).position()
            },
    {
        if self.index < self.slide.len() {
            let i = self.index;
            self.index = i + 1;
            self.slide.get_mut(i)
        } else {
            None
        }
    }

    /// The number of elements not yet yielded, exactly (as lower and upper bound).
    pub fn size_hint(&self) -> (r: (usize, Option<usize>))
        ensures
            r.0 == if self.position() <= self.source()@.len() {
                self.source()@.len() - self.position()
            } else {
                0
            },
            r.1 == Some(r.0),
    {
        let len = self.slide.len();
        let size = if self.index <= len {
            len - self.index
        } else {
            0
        };
        (size, Some(size))
    }
}

/// Iterator over `(index, &item)` pairs of a [`TrackingSlide`] in insertion order.
pub struct TrackingSlideIter<'a, T: 'a, I: 'a + Track + Copy, const N: usize> {
    slide: &'a TrackingSlide<T, I, N>,
    index: I,
}

impl<'a, T: 'a, I: 'a + Track + Copy, const N: usize> TrackingSlideIter<'a, T, I, N> {
    /// The slide iterated over.
    pub closed spec fn source(self) -> TrackingSlide<T, I, N> {
        *self.slide
    }

    /// The index of the next element.
    pub closed spec fn current(self) -> I {
        self.index
    }

    /// Advancing past the current element does not overflow the index.
    pub open spec fn can_advance(self) -> bool {
        self.source().position(self.current()) is Some ==> self.current().can_inc()
    }

    pub fn new(slide: &'a TrackingSlide<T, I, N>) -> (r: Self)
        ensures
            r.source() == *slide,
            r.current() == slide.first_index(),
    {
        TrackingSlideIter { slide, index: slide.first }
    }

    /// Yield the next `(index, &item)` pair, oldest first.
    pub fn next(&mut self) -> (r: Option<(I, &'a T)>)
        requires
            old(self).can_advance(),
        ensures
            final(self).source() == old(self).source(),
            old(self).source().position(old(self).current()) is None ==> {
                &&& r is None
                &&& final(self).current() == old(self).current()
            },
            old(self).source().position(old(self).current()) is Some ==> {
                &&& r == Some((
                    old(self).current(),
                    &old(self).source()@[old(self).source().position(old(self).current())->Some_0],
                ))
                &&& final(self).current() == old(self).current().stepped()
            },
    {
        let slide: &'a TrackingSlide<T, I, N> = self.slide;
        match slide.get(&self.index) {
            Some(item) => {
                let index = self.index;
                self.index.inc();
                Some((index, item))
            },
            None => None,
        }
    }

    /// The number of elements not yet yielded, exactly (as lower and upper bound).
    pub fn size_hint(&self) -> (r: (usize, Option<usize>))
        ensures
            r.0 == match self.source().position(self.current()) {
                Some(k) => self.source()@.len() - k,
                None => 0,
            },
            r.1 == Some(r.0),
    {
        let len = self.slide.len();
        let size = if self.index.is_before(&self.slide.first) {
            0
        } else {
            proof {
                I::lemma_rel_defined(&self.index, &self.slide.first);
            }
            let k = self.index.relative_to(&self.slide.first);
            if k < len {
                len - k
            } else {
                0
            }
        };
        (size, Some(size))
    }
}

/// Iterator over `(index, &mut item)` pairs of a [`TrackingSlide`] in insertion order.
pub struct TrackingSlideIterMut<'a, T: 'a, I: 'a + Track + Copy, const N: usize> {
    slide: &'a mut TrackingSlide<T, I, N>,
    index: I,
}

impl<'a, T: 'a, I: 'a + Track + Copy, const N: usize> TrackingSlideIterMut<'a, T, I, N> {
    /// The slide iterated over, as it currently is.
    pub closed spec fn source(self) -> TrackingSlide<T, I, N> {
        *self.slide
    }

    /// The index of the next element.
    pub closed spec fn current(self) -> I {
        self.index
    }

    /// Advancing past the current element does not overflow the index.
    pub open spec fn can_advance(self) -> bool {
        self.source().position(self.current()) is Some ==> self.current().can_inc()
    }

    pub fn new(slide: &'a mut TrackingSlide<T, I, N>) -> (r: Self)
        ensures
            r.source() == *old(slide),
            r.current() == old(slide).first_index(),
    {
        let index = slide.first;
        TrackingSlideIterMut { slide, index }
    }

    /// Yield the next `(index, &mut item)` pair, oldest first.
    pub fn next(&mut self) -> (r: Option<(I, &mut T)>)
        requires
            old(self).can_advance(),
        ensures
            old(self).source().position(old(self).current()) is None ==> {
                &&& r is None
                &&& final(self).source() == old(self).source()
                &&& final(self).current() == old(self).current()
            },
            old(self).source().position(old(self).current()) is Some ==> {
                let k = old(self).source().position(old(self).current())->Some_0;
                &&& r is Some
                &&& r->Some_0.0 == old(self).current()
                &&& *r->Some_0.1 == old(self).source()@[k]
                &&& final(self).source()@ == old(self).source()@.update(k, *final(r->Some_0.1))
                &&& final(self).source().first_index() == old(self).source().first_index()
                &&& final(self).current() == old(self).current().stepped()
            },
    {
        let index = self.index;
        if self.slide.get(&index).is_some() {
            self.index.inc();
            match self.slide.get_mut(&index) {
                Some(item) => Some((index, item)),
                None => None,
            }
        } else {
            None
        }
    }

    /// The number of elements not yet yielded, exactly (as lower and upper bound).
    pub fn size_hint(&self) -> (r: (usize, Option<usize>))
        ensures
            r.0 == match self.source().position(self.current()) {
                Some(k) => self.source()@.len() - k,
                None => 0,
            },
            r.1 == Some(r.0),
    {
        let len = self.slide.len();
        let size = if self.index.is_before(&self.slide.first) {
            0
        } else {
            proof {
                I::lemma_rel_defined(&self.index, &self.slide.first);
            }
            let k = self.index.relative_to(&self.slide.first);
            if k < len {
                len - k
            } else {
                0
            }
        };
        (size, Some(size))
    }
}

impl<T, const N: usize> Slide<T, N> {
    /// Get an iterator over the elements in the slide in the order of insertion.
    pub fn ordered_iter<'a>(&'a self) -> (r: SlideIter<'a, T, N>)
        ensures
            r.source() == *self,
            r.position() == 0,
    {
        SlideIter::new(self)
    }

    /// Get an iterator over mutable references to the elements in the order of insertion.
    pub fn ordered_iter_mut<'a>(&'a mut self) -> (r: SlideIterMut<'a, T, N>)
        ensures
            r.source() == *old(self),
            r.position() == 0,
    {
        SlideIterMut::new(self)
    }
}

impl<T, I: Track + Copy, const N: usize> TrackingSlide<T, I, N> {
    /// Get an iterator over the `(index, &item)` pairs, in insertion order.
    pub fn iter<'a>(&'a self) -> (r: TrackingSlideIter<'a, T, I, N>)
        ensures
            r.source() == *self,
            r.current() == self.first_index(),
    {
        TrackingSlideIter::new(self)
    }

    /// Get an iterator over the `(index, &mut item)` pairs, in insertion order.
    pub fn iter_mut<'a>(&'a mut self) -> (r: TrackingSlideIterMut<'a, T, I, N>)
        ensures
            r.source() == *old(self),
            r.current() == old(self).first_index(),
    {
        TrackingSlideIterMut::new(self)
    }
}

} // verus!
