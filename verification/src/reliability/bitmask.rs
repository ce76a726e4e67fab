//! Fixed-width bitmasks that track the boolean state of a section of a sequence.
use vstd::prelude::*;
use vstd::std_specs::bits::*;

verus! {

/// Trait for efficiently tracking boolean state of a section of a sequence.
///
/// Used by the reliability layer to keep track of delivered packets while minimizing the overhead.
/// The library provides implementations backed by the unsigned integers `u8`, `u16`, `u32` and
/// `u64`. Bit `0` is the least significant one and corresponds to the "newest" entry.
pub trait Bitmask: Copy + Sized {
    /// Number of tracked bits.
    spec fn width() -> nat;

    /// Whether bit `i` is set; never true outside `0..width()`.
    spec fn bit(&self, i: int) -> bool;

    proof fn lemma_width()
        ensures
            0 < Self::width() <= 64,
    ;

    proof fn lemma_bit_range(m: Self)
        ensures
            forall|i: int| #[trigger] m.bit(i) ==> 0 <= i < Self::width(),
    ;

    /// Masks with the same bits are the same mask.
    proof fn lemma_bits_determine(a: Self, b: Self)
        requires
            forall|i: int| #[trigger] a.bit(i) == b.bit(i),
        ensures
            a == b,
    ;

    /// Maximum number of tracked bits in the mask.
    fn max_bits() -> (r: u16)
        ensures
            r == Self::width(),
    ;

    /// Create a new instance of the bitmask with none of the bits set.
    fn empty() -> (r: Self)
        ensures
            forall|i: int| !r.bit(i),
    ;

    /// Create a new instance of the bitmask with all the possible bits set.
    fn filled() -> (r: Self)
        ensures
            forall|i: int| r.bit(i) <==> 0 <= i < Self::width(),
    ;

    /// Set the bit at the provided index (bit 0 is the newest one).
    fn set(&mut self, index: u16)
        requires
            index < Self::width(),
        ensures
            forall|i: int| #[trigger] final(self).bit(i) == (i == index || old(self).bit(i)),
    ;

    /// Unset the bit at the provided index.
    fn unset(&mut self, index: u16)
        requires
            index < Self::width(),
        ensures
            forall|i: int| #[trigger] final(self).bit(i) == (i != index && old(self).bit(i)),
    ;

    /// Unset all the bits that are set in `other`.
    fn unset_every(&mut self, other: Self)
        ensures
            forall|i: int| #[trigger] final(self).bit(i) == (old(self).bit(i) && !other.bit(i)),
    ;

    /// Check whether the bit at the provided index is set.
    fn is_set(&self, index: u16) -> (r: bool)
        requires
            index < Self::width(),
        ensures
            r == self.bit(index as int),
    ;

    /// Shift all the existing bits by `count` towards the "old" (higher index) direction: a
    /// previous index `x` becomes `x + count`, bits that do not fit are lost.
    fn shift(&mut self, count: u16)
        ensures
            forall|i: int|
                #[trigger] final(self).bit(i) == (count <= i < Self::width() && old(self).bit(i - count)),
    ;

    /// Shift all the existing bits by `count` towards the "new" (lower index) direction: a
    /// previous index `x` becomes `x - count`, bits below zero are lost.
    fn unshift(&mut self, count: u16)
        ensures
            forall|i: int|
                #[trigger] final(self).bit(i) == (0 <= i && i + count < Self::width() && old(self).bit(
                    i + count,
                )),
    ;

    /// Get the number of oldest (largest indices) contiguous set bits in `self`.
    fn highest_ones(&self) -> (r: u16)
        ensures
            0 <= r <= Self::width(),
            forall|i: int| Self::width() - r <= i < Self::width() ==> #[trigger] self.bit(i),
            r < Self::width() ==> !self.bit(Self::width() - 1 - r),
    ;

    /// Get the number of newest (lowest indices) contiguous unset bits in `self`.
    fn lowest_zeros(&self) -> (r: u16)
        ensures
            0 <= r <= Self::width(),
            forall|i: int| 0 <= i < r ==> !#[trigger] self.bit(i),
            r < Self::width() ==> self.bit(r as int),
    ;

    /// Get the total number of set bits in `self`.
    fn count_ones(&self) -> (r: u16)
        ensures
            r == count_true(|i: int| self.bit(i), Self::width() as int),
    {
        let w = Self::max_bits();
        let mut c: u16 = 0;
        let mut i: u16 = 0;
        while i < w
            invariant
                i <= w,
                w == Self::width(),
                c == count_true(|k: int| self.bit(k), i as int),
                c <= i,
            decreases w - i,
        {
            if self.is_set(i) {
                c = c + 1;
            }
            i = i + 1;
        }
        c
    }

    /// Whether no bit is set.
    fn is_empty(&self) -> (r: bool)
        ensures
            r <==> forall|i: int| !self.bit(i),
    {
        let c = self.count_ones();
        proof {
            let f = |i: int| self.bit(i);
            lemma_count_true_zero(f, Self::width() as int);
            Self::lemma_bit_range(*self);
            if c == 0 {
                assert forall|i: int| !#[trigger] self.bit(i) by {
                    if 0 <= i < Self::width() {
                        assert(!f(i));
                    }
                }
            }
            if forall|i: int| !#[trigger] self.bit(i) {
                assert forall|i: int| 0 <= i < Self::width() implies !#[trigger] f(i) by {
                    assert(!self.bit(i));
                }
            }
        }
        c == 0
    }
}

/// Number of indices in `0..n` at which `f` holds.
pub open spec fn count_true(f: spec_fn(int) -> bool, n: int) -> nat
    decreases n,
{
    if n <= 0 {
        0
    } else {
        count_true(f, n - 1) + if f(n - 1) {
            1nat
        } else {
            0nat
        }
    }
}

/// `f` holds nowhere in `0..n` exactly when its count there is zero.
pub proof fn lemma_count_true_zero(f: spec_fn(int) -> bool, n: int)
    ensures
        count_true(f, n) == 0 <==> forall|i: int| 0 <= i < n ==> !#[trigger] f(i),
    decreases n,
{
    if n > 0 {
        lemma_count_true_zero(f, n - 1);
    }
}

/// The indices below `n` at which `f` holds.
pub open spec fn set_below(f: spec_fn(int) -> bool, n: int) -> Set<int> {
    Set::new(|i: int| 0 <= i < n && f(i))
}

/// `count_true` counts the members of [`set_below`].
pub proof fn lemma_count_true_set(f: spec_fn(int) -> bool, n: int)
    ensures
        set_below(f, n).finite(),
        set_below(f, n).len() == count_true(f, n),
    decreases n,
{
    if n <= 0 {
        assert(set_below(f, n) =~= Set::<int>::empty());
    } else {
        lemma_count_true_set(f, n - 1);
        if f(n - 1) {
            assert(set_below(f, n) =~= set_below(f, n - 1).insert(n - 1));
        } else {
            assert(set_below(f, n) =~= set_below(f, n - 1));
        }
    }
}

/// If an injective `g` sends every index below `n` at which `p` holds to an index below `m` at
/// which `q` holds, `p` holds at most as often as `q`.
pub proof fn lemma_count_true_injection(
    p: spec_fn(int) -> bool,
    n: int,
    q: spec_fn(int) -> bool,
    m: int,
    g: spec_fn(int) -> int,
)
    requires
        forall|i: int| 0 <= i < n && #[trigger] p(i) ==> 0 <= g(i) < m && q(g(i)),
        forall|i: int, j: int|
            0 <= i < n && 0 <= j < n && #[trigger] p(i) && #[trigger] p(j) && g(i) == g(j) ==> i
                == j,
    ensures
        count_true(p, n) <= count_true(q, m),
{
    let a = set_below(p, n);
    let b = set_below(q, m);
    lemma_count_true_set(p, n);
    lemma_count_true_set(q, m);
    assert(vstd::relations::injective_on(g, a));
    vstd::set_lib::lemma_map_size(a, a.map(g), g);
    assert forall|y: int| a.map(g).contains(y) implies b.contains(y) by {
        let x = choose|x: int| a.contains(x) && g(x) == y;
        assert(p(x));
    }
    vstd::set_lib::lemma_len_subset(a.map(g), b);
}

/// Counting `f` moved up by one, with an extra hit at zero.
pub proof fn lemma_count_true_shift(f: spec_fn(int) -> bool, g: spec_fn(int) -> bool, n: int)
    requires
        0 <= n,
        forall|j: int| #[trigger] g(j) == (j == 0 || f(j - 1)),
    ensures
        count_true(g, n + 1) == 1 + count_true(f, n),
    decreases n,
{
    assert(g(0));
    assert(count_true(g, 1) == 1) by {
        reveal_with_fuel(count_true, 2);
    }
    if n > 0 {
        lemma_count_true_shift(f, g, n - 1);
        assert(g(n) == f(n - 1));
    }
}

/// The count grows with the range.
pub proof fn lemma_count_true_mono(f: spec_fn(int) -> bool, m: int, n: int)
    requires
        m <= n,
    ensures
        count_true(f, m) <= count_true(f, n),
    decreases n - m,
{
    if m < n {
        lemma_count_true_mono(f, m, n - 1);
    }
}

/// Two predicates that agree on `0..n` count the same there.
pub proof fn lemma_count_true_agree(f: spec_fn(int) -> bool, g: spec_fn(int) -> bool, n: int)
    requires
        forall|i: int| 0 <= i < n ==> #[trigger] f(i) == g(i),
    ensures
        count_true(f, n) == count_true(g, n),
    decreases n,
{
    if n > 0 {
        lemma_count_true_agree(f, g, n - 1);
    }
}

/// The count over `0..n` never exceeds `n`.
pub proof fn lemma_count_true_bound(f: spec_fn(int) -> bool, n: int)
    requires
        0 <= n,
    ensures
        count_true(f, n) <= n,
    decreases n,
{
    if n > 0 {
        lemma_count_true_bound(f, n - 1);
    }
}

/// Bit `i` of a `u32`.
pub open spec fn u32_bit(x: u32, i: int) -> bool {
    0 <= i < 32 && (x >> (i as u32)) & 1u32 == 1u32
}

proof fn lemma_u32_or(x: u32, k: u32, j: u32)
    by (bit_vector)
    requires
        k < 32,
        j < 32,
    ensures
        ((x | (1u32 << k)) >> j) & 1u32 == 1u32 <==> (j == k || (x >> j) & 1u32 == 1u32),
{
}

proof fn lemma_u32_and_not(x: u32, y: u32, j: u32)
    by (bit_vector)
    requires
        j < 32,
    ensures
        ((x & !y) >> j) & 1u32 == 1u32 <==> ((x >> j) & 1u32 == 1u32 && (y >> j) & 1u32 != 1u32),
{
}

proof fn lemma_u32_single(k: u32, j: u32)
    by (bit_vector)
    requires
        k < 32,
        j < 32,
    ensures
        ((1u32 << k) >> j) & 1u32 == 1u32 <==> j == k,
{
}

proof fn lemma_u32_test(x: u32, k: u32)
    by (bit_vector)
    requires
        k < 32,
    ensures
        (x & (1u32 << k) != 0u32) <==> ((x >> k) & 1u32 == 1u32),
{
}

proof fn lemma_u32_shl(x: u32, c: u32, j: u32)
    by (bit_vector)
    requires
        c < 32,
        j < 32,
    ensures
        j < c ==> ((x << c) >> j) & 1u32 != 1u32,
        c <= j ==> (((x << c) >> j) & 1u32 == 1u32 <==> (x >> ((j - c) as u32)) & 1u32 == 1u32),
{
}

proof fn lemma_u32_shr(x: u32, c: u32, j: u32)
    by (bit_vector)
    requires
        c < 32,
        j < 32,
    ensures
        j + c >= 32 ==> ((x >> c) >> j) & 1u32 != 1u32,
        j + c < 32 ==> (((x >> c) >> j) & 1u32 == 1u32 <==> (x >> ((j + c) as u32)) & 1u32 == 1u32),
{
}

proof fn lemma_u32_consts(j: u32)
    by (bit_vector)
    requires
        j < 32,
    ensures
        (0u32 >> j) & 1u32 != 1u32,
        (0xffff_ffffu32 >> j) & 1u32 == 1u32,
{
}

impl Bitmask for u32 {
    open spec fn width() -> nat {
        32
    }

    open spec fn bit(&self, i: int) -> bool {
        u32_bit(*self, i)
    }

    proof fn lemma_width() {
    }

    proof fn lemma_bit_range(m: Self) {
    }

    proof fn lemma_bits_determine(a: Self, b: Self) {
        // every bit, one by one
        assert(a.bit(0) == b.bit(0));
        assert(a.bit(1) == b.bit(1));
        assert(a.bit(2) == b.bit(2));
        assert(a.bit(3) == b.bit(3));
        assert(a.bit(4) == b.bit(4));
        assert(a.bit(5) == b.bit(5));
        assert(a.bit(6) == b.bit(6));
        assert(a.bit(7) == b.bit(7));
        assert(a.bit(8) == b.bit(8));
        assert(a.bit(9) == b.bit(9));
        assert(a.bit(10) == b.bit(10));
        assert(a.bit(11) == b.bit(11));
        assert(a.bit(12) == b.bit(12));
        assert(a.bit(13) == b.bit(13));
        assert(a.bit(14) == b.bit(14));
        assert(a.bit(15) == b.bit(15));
        assert(a.bit(16) == b.bit(16));
        assert(a.bit(17) == b.bit(17));
        assert(a.bit(18) == b.bit(18));
        assert(a.bit(19) == b.bit(19));
        assert(a.bit(20) == b.bit(20));
        assert(a.bit(21) == b.bit(21));
        assert(a.bit(22) == b.bit(22));
        assert(a.bit(23) == b.bit(23));
        assert(a.bit(24) == b.bit(24));
        assert(a.bit(25) == b.bit(25));
        assert(a.bit(26) == b.bit(26));
        assert(a.bit(27) == b.bit(27));
        assert(a.bit(28) == b.bit(28));
        assert(a.bit(29) == b.bit(29));
        assert(a.bit(30) == b.bit(30));
        assert(a.bit(31) == b.bit(31));
        assert(a == b) by (bit_vector)
            requires
                u32_bit(a, 0) == u32_bit(b, 0),
                u32_bit(a, 1) == u32_bit(b, 1),
                u32_bit(a, 2) == u32_bit(b, 2),
                u32_bit(a, 3) == u32_bit(b, 3),
                u32_bit(a, 4) == u32_bit(b, 4),
                u32_bit(a, 5) == u32_bit(b, 5),
                u32_bit(a, 6) == u32_bit(b, 6),
                u32_bit(a, 7) == u32_bit(b, 7),
                u32_bit(a, 8) == u32_bit(b, 8),
                u32_bit(a, 9) == u32_bit(b, 9),
                u32_bit(a, 10) == u32_bit(b, 10),
                u32_bit(a, 11) == u32_bit(b, 11),
                u32_bit(a, 12) == u32_bit(b, 12),
                u32_bit(a, 13) == u32_bit(b, 13),
                u32_bit(a, 14) == u32_bit(b, 14),
                u32_bit(a, 15) == u32_bit(b, 15),
                u32_bit(a, 16) == u32_bit(b, 16),
                u32_bit(a, 17) == u32_bit(b, 17),
                u32_bit(a, 18) == u32_bit(b, 18),
                u32_bit(a, 19) == u32_bit(b, 19),
                u32_bit(a, 20) == u32_bit(b, 20),
                u32_bit(a, 21) == u32_bit(b, 21),
                u32_bit(a, 22) == u32_bit(b, 22),
                u32_bit(a, 23) == u32_bit(b, 23),
                u32_bit(a, 24) == u32_bit(b, 24),
                u32_bit(a, 25) == u32_bit(b, 25),
                u32_bit(a, 26) == u32_bit(b, 26),
                u32_bit(a, 27) == u32_bit(b, 27),
                u32_bit(a, 28) == u32_bit(b, 28),
                u32_bit(a, 29) == u32_bit(b, 29),
                u32_bit(a, 30) == u32_bit(b, 30),
                u32_bit(a, 31) == u32_bit(b, 31),
        ;
    }

    fn max_bits() -> (r: u16) {
        32
    }

    fn empty() -> (r: Self) {
        proof {
            assert forall|i: int| !u32_bit(0u32, i) by {
                if 0 <= i < 32 {
                    lemma_u32_consts(i as u32);
                }
            }
        }
        0
    }

    fn filled() -> (r: Self) {
        proof {
            assert forall|i: int| u32_bit(0xffff_ffffu32, i) <==> 0 <= i < 32 by {
                if 0 <= i < 32 {
                    lemma_u32_consts(i as u32);
                }
            }
        }
        u32::MAX
    }

    fn set(&mut self, index: u16) {
        let k = index as u32;
        *self = *self | (1u32 << k);
        proof {
            assert forall|i: int| #[trigger] self.bit(i) == (i == index || old(self).bit(i)) by {
                if 0 <= i < 32 {
                    lemma_u32_or(*old(self), k, i as u32);
                }
            }
        }
    }

    fn unset(&mut self, index: u16) {
        let k = index as u32;
        *self = *self & !(1u32 << k);
        proof {
            assert forall|i: int| #[trigger] self.bit(i) == (i != index && old(self).bit(i)) by {
                if 0 <= i < 32 {
                    lemma_u32_and_not(*old(self), 1u32 << k, i as u32);
                    lemma_u32_single(k, i as u32);
                }
            }
        }
    }

    fn unset_every(&mut self, other: Self) {
        let ghost x = *self;
        *self = *self & !other;
        proof {
            assert forall|i: int| u32_bit(*self, i) == (u32_bit(x, i) && !u32_bit(other, i)) by {
                if 0 <= i < 32 {
                    lemma_u32_and_not(x, other, i as u32);
                }
            }
        }
    }

    fn is_set(&self, index: u16) -> (r: bool) {
        proof {
            lemma_u32_test(*self, index as u32);
        }
        *self & (1u32 << (index as u32)) != 0
    }

    fn shift(&mut self, count: u16) {
        let ghost x = *self;
        if count >= 32 {
            *self = 0;
            proof {
                assert forall|i: int| !u32_bit(0u32, i) by {
                    if 0 <= i < 32 {
                        lemma_u32_consts(i as u32);
                    }
                }
            }
        } else {
            let c = count as u32;
            *self = *self << c;
            proof {
                assert forall|i: int|
                    u32_bit(*self, i) == (count <= i < 32 && u32_bit(x, i - count)) by {
                    if 0 <= i < 32 {
                        lemma_u32_shl(x, c, i as u32);
                    }
                }
            }
        }
    }

    fn unshift(&mut self, count: u16) {
        let ghost x = *self;
        if count >= 32 {
            *self = 0;
            proof {
                assert forall|i: int| !u32_bit(0u32, i) by {
                    if 0 <= i < 32 {
                        lemma_u32_consts(i as u32);
                    }
                }
            }
        } else {
            let c = count as u32;
            *self = *self >> c;
            proof {
                assert forall|i: int|
                    u32_bit(*self, i) == (0 <= i && i + count < 32 && u32_bit(x, i + count)) by {
                    if 0 <= i < 32 {
                        lemma_u32_shr(x, c, i as u32);
                    }
                }
            }
        }
    }

    fn highest_ones(&self) -> (r: u16) {
        let r = self.leading_ones();
        proof {
            axiom_u32_leading_ones(*self);
        }
        r as u16
    }

    fn lowest_zeros(&self) -> (r: u16) {
        let r = self.trailing_zeros();
        proof {
            axiom_u32_trailing_zeros(*self);
        }
        r as u16
    }
}

/// Bit `i` of a `u8`.
pub open spec fn u8_bit(x: u8, i: int) -> bool {
    0 <= i < 8 && (x >> (i as u8)) & 1u8 == 1u8
}

proof fn lemma_u8_or(x: u8, k: u8, j: u8)
    by (bit_vector)
    requires
        k < 8,
        j < 8,
    ensures
        ((x | (1u8 << k)) >> j) & 1u8 == 1u8 <==> (j == k || (x >> j) & 1u8 == 1u8),
{
}

proof fn lemma_u8_and_not(x: u8, y: u8, j: u8)
    by (bit_vector)
    requires
        j < 8,
    ensures
        ((x & !y) >> j) & 1u8 == 1u8 <==> ((x >> j) & 1u8 == 1u8 && (y >> j) & 1u8 != 1u8),
{
}

proof fn lemma_u8_single(k: u8, j: u8)
    by (bit_vector)
    requires
        k < 8,
        j < 8,
    ensures
        ((1u8 << k) >> j) & 1u8 == 1u8 <==> j == k,
{
}

proof fn lemma_u8_test(x: u8, k: u8)
    by (bit_vector)
    requires
        k < 8,
    ensures
        (x & (1u8 << k) != 0u8) <==> ((x >> k) & 1u8 == 1u8),
{
}

proof fn lemma_u8_shl(x: u8, c: u8, j: u8)
    by (bit_vector)
    requires
        c < 8,
        j < 8,
    ensures
        j < c ==> ((x << c) >> j) & 1u8 != 1u8,
        c <= j ==> (((x << c) >> j) & 1u8 == 1u8 <==> (x >> ((j - c) as u8)) & 1u8 == 1u8),
{
}

proof fn lemma_u8_shr(x: u8, c: u8, j: u8)
    by (bit_vector)
    requires
        c < 8,
        j < 8,
    ensures
        j + c >= 8 ==> ((x >> c) >> j) & 1u8 != 1u8,
        j + c < 8 ==> (((x >> c) >> j) & 1u8 == 1u8 <==> (x >> ((j + c) as u8)) & 1u8 == 1u8),
{
}

proof fn lemma_u8_consts(j: u8)
    by (bit_vector)
    requires
        j < 8,
    ensures
        (0u8 >> j) & 1u8 != 1u8,
        (0xffu8 >> j) & 1u8 == 1u8,
{
}

impl Bitmask for u8 {
    open spec fn width() -> nat {
        8
    }

    open spec fn bit(&self, i: int) -> bool {
        u8_bit(*self, i)
    }

    proof fn lemma_width() {
    }

    proof fn lemma_bit_range(m: Self) {
    }

    proof fn lemma_bits_determine(a: Self, b: Self) {
        // every bit, one by one
        assert(a.bit(0) == b.bit(0));
        assert(a.bit(1) == b.bit(1));
        assert(a.bit(2) == b.bit(2));
        assert(a.bit(3) == b.bit(3));
        assert(a.bit(4) == b.bit(4));
        assert(a.bit(5) == b.bit(5));
        assert(a.bit(6) == b.bit(6));
        assert(a.bit(7) == b.bit(7));
        assert(a == b) by (bit_vector)
            requires
                u8_bit(a, 0) == u8_bit(b, 0),
                u8_bit(a, 1) == u8_bit(b, 1),
                u8_bit(a, 2) == u8_bit(b, 2),
                u8_bit(a, 3) == u8_bit(b, 3),
                u8_bit(a, 4) == u8_bit(b, 4),
                u8_bit(a, 5) == u8_bit(b, 5),
                u8_bit(a, 6) == u8_bit(b, 6),
                u8_bit(a, 7) == u8_bit(b, 7),
        ;
    }

    fn max_bits() -> (r: u16) {
        8
    }

    fn empty() -> (r: Self) {
        proof {
            assert forall|i: int| !u8_bit(0u8, i) by {
                if 0 <= i < 8 {
                    lemma_u8_consts(i as u8);
                }
            }
        }
        0
    }

    fn filled() -> (r: Self) {
        proof {
            assert forall|i: int| u8_bit(0xffu8, i) <==> 0 <= i < 8 by {
                if 0 <= i < 8 {
                    lemma_u8_consts(i as u8);
                }
            }
        }
        u8::MAX
    }

    fn set(&mut self, index: u16) {
        let k = index as u8;
        *self = *self | (1u8 << k);
        proof {
            assert forall|i: int| #[trigger] self.bit(i) == (i == index || old(self).bit(i)) by {
                if 0 <= i < 8 {
                    lemma_u8_or(*old(self), k, i as u8);
                }
            }
        }
    }

    fn unset(&mut self, index: u16) {
        let k = index as u8;
        *self = *self & !(1u8 << k);
        proof {
            assert forall|i: int| #[trigger] self.bit(i) == (i != index && old(self).bit(i)) by {
                if 0 <= i < 8 {
                    lemma_u8_and_not(*old(self), 1u8 << k, i as u8);
                    lemma_u8_single(k, i as u8);
                }
            }
        }
    }

    fn unset_every(&mut self, other: Self) {
        let ghost x = *self;
        *self = *self & !other;
        proof {
            assert forall|i: int| u8_bit(*self, i) == (u8_bit(x, i) && !u8_bit(other, i)) by {
                if 0 <= i < 8 {
                    lemma_u8_and_not(x, other, i as u8);
                }
            }
        }
    }

    fn is_set(&self, index: u16) -> (r: bool) {
        proof {
            lemma_u8_test(*self, index as u8);
        }
        *self & (1u8 << (index as u8)) != 0
    }

    fn shift(&mut self, count: u16) {
        let ghost x = *self;
        if count >= 8 {
            *self = 0;
            proof {
                assert forall|i: int| !u8_bit(0u8, i) by {
                    if 0 <= i < 8 {
                        lemma_u8_consts(i as u8);
                    }
                }
            }
        } else {
            let c = count as u8;
            *self = *self << c;
            proof {
                assert forall|i: int|
                    u8_bit(*self, i) == (count <= i < 8 && u8_bit(x, i - count)) by {
                    if 0 <= i < 8 {
                        lemma_u8_shl(x, c, i as u8);
                    }
                }
            }
        }
    }

    fn unshift(&mut self, count: u16) {
        let ghost x = *self;
        if count >= 8 {
            *self = 0;
            proof {
                assert forall|i: int| !u8_bit(0u8, i) by {
                    if 0 <= i < 8 {
                        lemma_u8_consts(i as u8);
                    }
                }
            }
        } else {
            let c = count as u8;
            *self = *self >> c;
            proof {
                assert forall|i: int|
                    u8_bit(*self, i) == (0 <= i && i + count < 8 && u8_bit(x, i + count)) by {
                    if 0 <= i < 8 {
                        lemma_u8_shr(x, c, i as u8);
                    }
                }
            }
        }
    }

    fn highest_ones(&self) -> (r: u16) {
        let r = self.leading_ones();
        proof {
            axiom_u8_leading_ones(*self);
        }
        r as u16
    }

    fn lowest_zeros(&self) -> (r: u16) {
        let r = self.trailing_zeros();
        proof {
            axiom_u8_trailing_zeros(*self);
        }
        r as u16
    }
}

/// Bit `i` of a `u16`.
pub open spec fn u16_bit(x: u16, i: int) -> bool {
    0 <= i < 16 && (x >> (i as u16)) & 1u16 == 1u16
}

proof fn lemma_u16_or(x: u16, k: u16, j: u16)
    by (bit_vector)
    requires
        k < 16,
        j < 16,
    ensures
        ((x | (1u16 << k)) >> j) & 1u16 == 1u16 <==> (j == k || (x >> j) & 1u16 == 1u16),
{
}

proof fn lemma_u16_and_not(x: u16, y: u16, j: u16)
    by (bit_vector)
    requires
        j < 16,
    ensures
        ((x & !y) >> j) & 1u16 == 1u16 <==> ((x >> j) & 1u16 == 1u16 && (y >> j) & 1u16 != 1u16),
{
}

proof fn lemma_u16_single(k: u16, j: u16)
    by (bit_vector)
    requires
        k < 16,
        j < 16,
    ensures
        ((1u16 << k) >> j) & 1u16 == 1u16 <==> j == k,
{
}

proof fn lemma_u16_test(x: u16, k: u16)
    by (bit_vector)
    requires
        k < 16,
    ensures
        (x & (1u16 << k) != 0u16) <==> ((x >> k) & 1u16 == 1u16),
{
}

proof fn lemma_u16_shl(x: u16, c: u16, j: u16)
    by (bit_vector)
    requires
        c < 16,
        j < 16,
    ensures
        j < c ==> ((x << c) >> j) & 1u16 != 1u16,
        c <= j ==> (((x << c) >> j) & 1u16 == 1u16 <==> (x >> ((j - c) as u16)) & 1u16 == 1u16),
{
}

proof fn lemma_u16_shr(x: u16, c: u16, j: u16)
    by (bit_vector)
    requires
        c < 16,
        j < 16,
    ensures
        j + c >= 16 ==> ((x >> c) >> j) & 1u16 != 1u16,
        j + c < 16 ==> (((x >> c) >> j) & 1u16 == 1u16 <==> (x >> ((j + c) as u16)) & 1u16 == 1u16),
{
}

proof fn lemma_u16_consts(j: u16)
    by (bit_vector)
    requires
        j < 16,
    ensures
        (0u16 >> j) & 1u16 != 1u16,
        (0xffffu16 >> j) & 1u16 == 1u16,
{
}

impl Bitmask for u16 {
    open spec fn width() -> nat {
        16
    }

    open spec fn bit(&self, i: int) -> bool {
        u16_bit(*self, i)
    }

    proof fn lemma_width() {
    }

    proof fn lemma_bit_range(m: Self) {
    }

    proof fn lemma_bits_determine(a: Self, b: Self) {
        // every bit, one by one
        assert(a.bit(0) == b.bit(0));
        assert(a.bit(1) == b.bit(1));
        assert(a.bit(2) == b.bit(2));
        assert(a.bit(3) == b.bit(3));
        assert(a.bit(4) == b.bit(4));
        assert(a.bit(5) == b.bit(5));
        assert(a.bit(6) == b.bit(6));
        assert(a.bit(7) == b.bit(7));
        assert(a.bit(8) == b.bit(8));
        assert(a.bit(9) == b.bit(9));
        assert(a.bit(10) == b.bit(10));
        assert(a.bit(11) == b.bit(11));
        assert(a.bit(12) == b.bit(12));
        assert(a.bit(13) == b.bit(13));
        assert(a.bit(14) == b.bit(14));
        assert(a.bit(15) == b.bit(15));
        assert(a == b) by (bit_vector)
            requires
                u16_bit(a, 0) == u16_bit(b, 0),
                u16_bit(a, 1) == u16_bit(b, 1),
                u16_bit(a, 2) == u16_bit(b, 2),
                u16_bit(a, 3) == u16_bit(b, 3),
                u16_bit(a, 4) == u16_bit(b, 4),
                u16_bit(a, 5) == u16_bit(b, 5),
                u16_bit(a, 6) == u16_bit(b, 6),
                u16_bit(a, 7) == u16_bit(b, 7),
                u16_bit(a, 8) == u16_bit(b, 8),
                u16_bit(a, 9) == u16_bit(b, 9),
                u16_bit(a, 10) == u16_bit(b, 10),
                u16_bit(a, 11) == u16_bit(b, 11),
                u16_bit(a, 12) == u16_bit(b, 12),
                u16_bit(a, 13) == u16_bit(b, 13),
                u16_bit(a, 14) == u16_bit(b, 14),
                u16_bit(a, 15) == u16_bit(b, 15),
        ;
    }

    fn max_bits() -> (r: u16) {
        16
    }

    fn empty() -> (r: Self) {
        proof {
            assert forall|i: int| !u16_bit(0u16, i) by {
                if 0 <= i < 16 {
                    lemma_u16_consts(i as u16);
                }
            }
        }
        0
    }

    fn filled() -> (r: Self) {
        proof {
            assert forall|i: int| u16_bit(0xffffu16, i) <==> 0 <= i < 16 by {
                if 0 <= i < 16 {
                    lemma_u16_consts(i as u16);
                }
            }
        }
        u16::MAX
    }

    fn set(&mut self, index: u16) {
        let k = index as u16;
        *self = *self | (1u16 << k);
        proof {
            assert forall|i: int| #[trigger] self.bit(i) == (i == index || old(self).bit(i)) by {
                if 0 <= i < 16 {
                    lemma_u16_or(*old(self), k, i as u16);
                }
            }
        }
    }

    fn unset(&mut self, index: u16) {
        let k = index as u16;
        *self = *self & !(1u16 << k);
        proof {
            assert forall|i: int| #[trigger] self.bit(i) == (i != index && old(self).bit(i)) by {
                if 0 <= i < 16 {
                    lemma_u16_and_not(*old(self), 1u16 << k, i as u16);
                    lemma_u16_single(k, i as u16);
                }
            }
        }
    }

    fn unset_every(&mut self, other: Self) {
        let ghost x = *self;
        *self = *self & !other;
        proof {
            assert forall|i: int| u16_bit(*self, i) == (u16_bit(x, i) && !u16_bit(other, i)) by {
                if 0 <= i < 16 {
                    lemma_u16_and_not(x, other, i as u16);
                }
            }
        }
    }

    fn is_set(&self, index: u16) -> (r: bool) {
        proof {
            lemma_u16_test(*self, index as u16);
        }
        *self & (1u16 << (index as u16)) != 0
    }

    fn shift(&mut self, count: u16) {
        let ghost x = *self;
        if count >= 16 {
            *self = 0;
            proof {
                assert forall|i: int| !u16_bit(0u16, i) by {
                    if 0 <= i < 16 {
                        lemma_u16_consts(i as u16);
                    }
                }
            }
        } else {
            let c = count as u16;
            *self = *self << c;
            proof {
                assert forall|i: int|
                    u16_bit(*self, i) == (count <= i < 16 && u16_bit(x, i - count)) by {
                    if 0 <= i < 16 {
                        lemma_u16_shl(x, c, i as u16);
                    }
                }
            }
        }
    }

    fn unshift(&mut self, count: u16) {
        let ghost x = *self;
        if count >= 16 {
            *self = 0;
            proof {
                assert forall|i: int| !u16_bit(0u16, i) by {
                    if 0 <= i < 16 {
                        lemma_u16_consts(i as u16);
                    }
                }
            }
        } else {
            let c = count as u16;
            *self = *self >> c;
            proof {
                assert forall|i: int|
                    u16_bit(*self, i) == (0 <= i && i + count < 16 && u16_bit(x, i + count)) by {
                    if 0 <= i < 16 {
                        lemma_u16_shr(x, c, i as u16);
                    }
                }
            }
        }
    }

    fn highest_ones(&self) -> (r: u16) {
        let r = self.leading_ones();
        proof {
            axiom_u16_leading_ones(*self);
        }
        r as u16
    }

    fn lowest_zeros(&self) -> (r: u16) {
        let r = self.trailing_zeros();
        proof {
            axiom_u16_trailing_zeros(*self);
        }
        r as u16
    }
}

/// Bit `i` of a `u64`.
pub open spec fn u64_bit(x: u64, i: int) -> bool {
    0 <= i < 64 && (x >> (i as u64)) & 1u64 == 1u64
}

proof fn lemma_u64_or(x: u64, k: u64, j: u64)
    by (bit_vector)
    requires
        k < 64,
        j < 64,
    ensures
        ((x | (1u64 << k)) >> j) & 1u64 == 1u64 <==> (j == k || (x >> j) & 1u64 == 1u64),
{
}

proof fn lemma_u64_and_not(x: u64, y: u64, j: u64)
    by (bit_vector)
    requires
        j < 64,
    ensures
        ((x & !y) >> j) & 1u64 == 1u64 <==> ((x >> j) & 1u64 == 1u64 && (y >> j) & 1u64 != 1u64),
{
}

proof fn lemma_u64_single(k: u64, j: u64)
    by (bit_vector)
    requires
        k < 64,
        j < 64,
    ensures
        ((1u64 << k) >> j) & 1u64 == 1u64 <==> j == k,
{
}

proof fn lemma_u64_test(x: u64, k: u64)
    by (bit_vector)
    requires
        k < 64,
    ensures
        (x & (1u64 << k) != 0u64) <==> ((x >> k) & 1u64 == 1u64),
{
}

proof fn lemma_u64_shl(x: u64, c: u64, j: u64)
    by (bit_vector)
    requires
        c < 64,
        j < 64,
    ensures
        j < c ==> ((x << c) >> j) & 1u64 != 1u64,
        c <= j ==> (((x << c) >> j) & 1u64 == 1u64 <==> (x >> ((j - c) as u64)) & 1u64 == 1u64),
{
}

proof fn lemma_u64_shr(x: u64, c: u64, j: u64)
    by (bit_vector)
    requires
        c < 64,
        j < 64,
    ensures
        j + c >= 64 ==> ((x >> c) >> j) & 1u64 != 1u64,
        j + c < 64 ==> (((x >> c) >> j) & 1u64 == 1u64 <==> (x >> ((j + c) as u64)) & 1u64 == 1u64),
{
}

proof fn lemma_u64_consts(j: u64)
    by (bit_vector)
    requires
        j < 64,
    ensures
        (0u64 >> j) & 1u64 != 1u64,
        (0xffff_ffff_ffff_ffffu64 >> j) & 1u64 == 1u64,
{
}

impl Bitmask for u64 {
    open spec fn width() -> nat {
        64
    }

    open spec fn bit(&self, i: int) -> bool {
        u64_bit(*self, i)
    }

    proof fn lemma_width() {
    }

    proof fn lemma_bit_range(m: Self) {
    }

    proof fn lemma_bits_determine(a: Self, b: Self) {
        // every bit, one by one
        assert(a.bit(0) == b.bit(0));
        assert(a.bit(1) == b.bit(1));
        assert(a.bit(2) == b.bit(2));
        assert(a.bit(3) == b.bit(3));
        assert(a.bit(4) == b.bit(4));
        assert(a.bit(5) == b.bit(5));
        assert(a.bit(6) == b.bit(6));
        assert(a.bit(7) == b.bit(7));
        assert(a.bit(8) == b.bit(8));
        assert(a.bit(9) == b.bit(9));
        assert(a.bit(10) == b.bit(10));
        assert(a.bit(11) == b.bit(11));
        assert(a.bit(12) == b.bit(12));
        assert(a.bit(13) == b.bit(13));
        assert(a.bit(14) == b.bit(14));
        assert(a.bit(15) == b.bit(15));
        assert(a.bit(16) == b.bit(16));
        assert(a.bit(17) == b.bit(17));
        assert(a.bit(18) == b.bit(18));
        assert(a.bit(19) == b.bit(19));
        assert(a.bit(20) == b.bit(20));
        assert(a.bit(21) == b.bit(21));
        assert(a.bit(22) == b.bit(22));
        assert(a.bit(23) == b.bit(23));
        assert(a.bit(24) == b.bit(24));
        assert(a.bit(25) == b.bit(25));
        assert(a.bit(26) == b.bit(26));
        assert(a.bit(27) == b.bit(27));
        assert(a.bit(28) == b.bit(28));
        assert(a.bit(29) == b.bit(29));
        assert(a.bit(30) == b.bit(30));
        assert(a.bit(31) == b.bit(31));
        assert(a.bit(32) == b.bit(32));
        assert(a.bit(33) == b.bit(33));
        assert(a.bit(34) == b.bit(34));
        assert(a.bit(35) == b.bit(35));
        assert(a.bit(36) == b.bit(36));
        assert(a.bit(37) == b.bit(37));
        assert(a.bit(38) == b.bit(38));
        assert(a.bit(39) == b.bit(39));
        assert(a.bit(40) == b.bit(40));
        assert(a.bit(41) == b.bit(41));
        assert(a.bit(42) == b.bit(42));
        assert(a.bit(43) == b.bit(43));
        assert(a.bit(44) == b.bit(44));
        assert(a.bit(45) == b.bit(45));
        assert(a.bit(46) == b.bit(46));
        assert(a.bit(47) == b.bit(47));
        assert(a.bit(48) == b.bit(48));
        assert(a.bit(49) == b.bit(49));
        assert(a.bit(50) == b.bit(50));
        assert(a.bit(51) == b.bit(51));
        assert(a.bit(52) == b.bit(52));
        assert(a.bit(53) == b.bit(53));
        assert(a.bit(54) == b.bit(54));
        assert(a.bit(55) == b.bit(55));
        assert(a.bit(56) == b.bit(56));
        assert(a.bit(57) == b.bit(57));
        assert(a.bit(58) == b.bit(58));
        assert(a.bit(59) == b.bit(59));
        assert(a.bit(60) == b.bit(60));
        assert(a.bit(61) == b.bit(61));
        assert(a.bit(62) == b.bit(62));
        assert(a.bit(63) == b.bit(63));
        assert(a == b) by (bit_vector)
            requires
                u64_bit(a, 0) == u64_bit(b, 0),
                u64_bit(a, 1) == u64_bit(b, 1),
                u64_bit(a, 2) == u64_bit(b, 2),
                u64_bit(a, 3) == u64_bit(b, 3),
                u64_bit(a, 4) == u64_bit(b, 4),
                u64_bit(a, 5) == u64_bit(b, 5),
                u64_bit(a, 6) == u64_bit(b, 6),
                u64_bit(a, 7) == u64_bit(b, 7),
                u64_bit(a, 8) == u64_bit(b, 8),
                u64_bit(a, 9) == u64_bit(b, 9),
                u64_bit(a, 10) == u64_bit(b, 10),
                u64_bit(a, 11) == u64_bit(b, 11),
                u64_bit(a, 12) == u64_bit(b, 12),
                u64_bit(a, 13) == u64_bit(b, 13),
                u64_bit(a, 14) == u64_bit(b, 14),
                u64_bit(a, 15) == u64_bit(b, 15),
                u64_bit(a, 16) == u64_bit(b, 16),
                u64_bit(a, 17) == u64_bit(b, 17),
                u64_bit(a, 18) == u64_bit(b, 18),
                u64_bit(a, 19) == u64_bit(b, 19),
                u64_bit(a, 20) == u64_bit(b, 20),
                u64_bit(a, 21) == u64_bit(b, 21),
                u64_bit(a, 22) == u64_bit(b, 22),
                u64_bit(a, 23) == u64_bit(b, 23),
                u64_bit(a, 24) == u64_bit(b, 24),
                u64_bit(a, 25) == u64_bit(b, 25),
                u64_bit(a, 26) == u64_bit(b, 26),
                u64_bit(a, 27) == u64_bit(b, 27),
                u64_bit(a, 28) == u64_bit(b, 28),
                u64_bit(a, 29) == u64_bit(b, 29),
                u64_bit(a, 30) == u64_bit(b, 30),
                u64_bit(a, 31) == u64_bit(b, 31),
                u64_bit(a, 32) == u64_bit(b, 32),
                u64_bit(a, 33) == u64_bit(b, 33),
                u64_bit(a, 34) == u64_bit(b, 34),
                u64_bit(a, 35) == u64_bit(b, 35),
                u64_bit(a, 36) == u64_bit(b, 36),
                u64_bit(a, 37) == u64_bit(b, 37),
                u64_bit(a, 38) == u64_bit(b, 38),
                u64_bit(a, 39) == u64_bit(b, 39),
                u64_bit(a, 40) == u64_bit(b, 40),
                u64_bit(a, 41) == u64_bit(b, 41),
                u64_bit(a, 42) == u64_bit(b, 42),
                u64_bit(a, 43) == u64_bit(b, 43),
                u64_bit(a, 44) == u64_bit(b, 44),
                u64_bit(a, 45) == u64_bit(b, 45),
                u64_bit(a, 46) == u64_bit(b, 46),
                u64_bit(a, 47) == u64_bit(b, 47),
                u64_bit(a, 48) == u64_bit(b, 48),
                u64_bit(a, 49) == u64_bit(b, 49),
                u64_bit(a, 50) == u64_bit(b, 50),
                u64_bit(a, 51) == u64_bit(b, 51),
                u64_bit(a, 52) == u64_bit(b, 52),
                u64_bit(a, 53) == u64_bit(b, 53),
                u64_bit(a, 54) == u64_bit(b, 54),
                u64_bit(a, 55) == u64_bit(b, 55),
                u64_bit(a, 56) == u64_bit(b, 56),
                u64_bit(a, 57) == u64_bit(b, 57),
                u64_bit(a, 58) == u64_bit(b, 58),
                u64_bit(a, 59) == u64_bit(b, 59),
                u64_bit(a, 60) == u64_bit(b, 60),
                u64_bit(a, 61) == u64_bit(b, 61),
                u64_bit(a, 62) == u64_bit(b, 62),
                u64_bit(a, 63) == u64_bit(b, 63),
        ;
    }

    fn max_bits() -> (r: u16) {
        64
    }

    fn empty() -> (r: Self) {
        proof {
            assert forall|i: int| !u64_bit(0u64, i) by {
                if 0 <= i < 64 {
                    lemma_u64_consts(i as u64);
                }
            }
        }
        0
    }

    fn filled() -> (r: Self) {
        proof {
            assert forall|i: int| u64_bit(0xffff_ffff_ffff_ffffu64, i) <==> 0 <= i < 64 by {
                if 0 <= i < 64 {
                    lemma_u64_consts(i as u64);
                }
            }
        }
        u64::MAX
    }

    fn set(&mut self, index: u16) {
        let k = index as u64;
        *self = *self | (1u64 << k);
        proof {
            assert forall|i: int| #[trigger] self.bit(i) == (i == index || old(self).bit(i)) by {
                if 0 <= i < 64 {
                    lemma_u64_or(*old(self), k, i as u64);
                }
            }
        }
    }

    fn unset(&mut self, index: u16) {
        let k = index as u64;
        *self = *self & !(1u64 << k);
        proof {
            assert forall|i: int| #[trigger] self.bit(i) == (i != index && old(self).bit(i)) by {
                if 0 <= i < 64 {
                    lemma_u64_and_not(*old(self), 1u64 << k, i as u64);
                    lemma_u64_single(k, i as u64);
                }
            }
        }
    }

    fn unset_every(&mut self, other: Self) {
        let ghost x = *self;
        *self = *self & !other;
        proof {
            assert forall|i: int| u64_bit(*self, i) == (u64_bit(x, i) && !u64_bit(other, i)) by {
                if 0 <= i < 64 {
                    lemma_u64_and_not(x, other, i as u64);
                }
            }
        }
    }

    fn is_set(&self, index: u16) -> (r: bool) {
        proof {
            lemma_u64_test(*self, index as u64);
        }
        *self & (1u64 << (index as u64)) != 0
    }

    fn shift(&mut self, count: u16) {
        let ghost x = *self;
        if count >= 64 {
            *self = 0;
            proof {
                assert forall|i: int| !u64_bit(0u64, i) by {
                    if 0 <= i < 64 {
                        lemma_u64_consts(i as u64);
                    }
                }
            }
        } else {
            let c = count as u64;
            *self = *self << c;
            proof {
                assert forall|i: int|
                    u64_bit(*self, i) == (count <= i < 64 && u64_bit(x, i - count)) by {
                    if 0 <= i < 64 {
                        lemma_u64_shl(x, c, i as u64);
                    }
                }
            }
        }
    }

    fn unshift(&mut self, count: u16) {
        let ghost x = *self;
        if count >= 64 {
            *self = 0;
            proof {
                assert forall|i: int| !u64_bit(0u64, i) by {
                    if 0 <= i < 64 {
                        lemma_u64_consts(i as u64);
                    }
                }
            }
        } else {
            let c = count as u64;
            *self = *self >> c;
            proof {
                assert forall|i: int|
                    u64_bit(*self, i) == (0 <= i && i + count < 64 && u64_bit(x, i + count)) by {
                    if 0 <= i < 64 {
                        lemma_u64_shr(x, c, i as u64);
                    }
                }
            }
        }
    }

    fn highest_ones(&self) -> (r: u16) {
        let r = self.leading_ones();
        proof {
            axiom_u64_leading_ones(*self);
        }
        r as u16
    }

    fn lowest_zeros(&self) -> (r: u16) {
        let r = self.trailing_zeros();
        proof {
            axiom_u64_trailing_zeros(*self);
        }
        r as u16
    }
}

} // verus!

verus! {

/// Shifting towards "old" by `c` and back towards "new" by `c` restores every bit that stayed
/// within the mask: [`unshift`](Bitmask::unshift) is a soft inverse of
/// [`shift`](Bitmask::shift).
pub proof fn law_unshift_undoes_shift<B: Bitmask>(m: B, shifted: B, back: B, c: int)
    requires
        0 <= c,
        forall|i: int| #[trigger]
            shifted.bit(i) == (c <= i < B::width() && m.bit(i - c)),
        forall|i: int| #[trigger]
            back.bit(i) == (0 <= i && i + c < B::width() && shifted.bit(i + c)),
    ensures
        forall|i: int| 0 <= i < B::width() - c ==> #[trigger] back.bit(i) == m.bit(i),
{
}

} // verus!
