//! Application-based connection management.
//!
//! The idea of a connection is a persistent state machine across back-and-forth network traffic
//! between two different nodes. This can be useful even on top of connection-based protocols
//! like TCP, by providing means for application-level initialization logic.
//!
//! Only one pending connection is assumed per peer.
use vstd::prelude::*;

mod private;

verus! {

/// The state of a connection.
#[derive(Debug, Clone, Copy, PartialEq, Eq, Structural)]
pub enum ConnectionState {
    /// A new connection is pending: a client waits for the server to accept it, or a server
    /// has yet to accept (or reject) a new client.
    Pending,
    /// A connection has been accepted and is fully functional.
    Accepted,
    /// A connection has been discontinued or not accepted within expected time slot.
    Dropped,
}

/// Ran out of available connection ids.
#[derive(Debug, PartialEq, Eq, Structural, Clone, Copy)]
pub struct OutOfIdsError;

/// The backing for a [`ConnectionId`], allows use of either [`u8`], [`u16`] or [`u32`] for
/// identifying a connection. Using a larger integer allows for more simultaneously active
/// connections, but imposes larger serialized size.
///
/// The top bit of a word flags a dropped connection; the other bits hold the id, where zero
/// stands for "no id".
pub trait ConnectionWord: private::Sealed + Copy + Eq {
    /// The numeric value of the word.
    spec fn value(self) -> nat;

    /// The value of the top bit.
    spec fn top() -> nat;

    proof fn lemma_word(w: Self)
        ensures
            Self::top() == 0x80 || Self::top() == 0x8000 || Self::top() == 0x8000_0000,
            w.value() < 2 * Self::top(),
    ;

    /// Words with the same value are the same word.
    proof fn lemma_value_injective(a: Self, b: Self)
        requires
            a.value() == b.value(),
        ensures
            a == b,
    ;

    /// The word with only the top bit set.
    fn top_bit() -> (r: Self)
        ensures
            r.value() == Self::top(),
    ;

    /// The zero word.
    fn zero() -> (r: Self)
        ensures
            r.value() == 0,
    ;

    /// The number of distinct non-zero ids.
    fn max_count() -> (r: usize)
        ensures
            r == Self::top() - 1,
    ;

    /// The word with the top bit cleared.
    fn without_top(self) -> (r: Self)
        ensures
            r.value() == self.value() % Self::top(),
    ;

    /// Whether the top bit is set.
    fn has_top(self) -> (r: bool)
        ensures
            r == (self.value() >= Self::top()),
    ;

    /// Whether the word is zero.
    fn is_zero(self) -> (r: bool)
        ensures
            r == (self.value() == 0),
    ;

    /// The next id: `self + 1`, unless that sets the top bit.
    fn next(self) -> (r: Result<Self, OutOfIdsError>)
        requires
            self.value() + 1 < 2 * Self::top(),
        ensures
            self.value() + 1 < Self::top() ==> r is Ok && r->Ok_0.value() == self.value() + 1,
            self.value() + 1 >= Self::top() ==> r is Err,
    ;
}

proof fn lemma_u8_top(x: u8)
    by (bit_vector)
    ensures
        x & !0x80u8 == x % 0x80u8,
        (x & 0x80u8 == 0x80u8) == (x >= 0x80u8),
{
}

impl ConnectionWord for u8 {
    open spec fn value(self) -> nat {
        self as nat
    }

    open spec fn top() -> nat {
        0x80
    }

    proof fn lemma_word(w: Self) {
    }

    proof fn lemma_value_injective(a: Self, b: Self) {
    }

    fn top_bit() -> (r: Self) {
        0x80
    }

    fn zero() -> (r: Self) {
        0
    }

    fn max_count() -> (r: usize) {
        0x7f
    }

    fn without_top(self) -> (r: Self) {
        proof {
            lemma_u8_top(self);
        }
        self & !Self::top_bit()
    }

    fn has_top(self) -> (r: bool) {
        proof {
            lemma_u8_top(self);
        }
        self & Self::top_bit() == Self::top_bit()
    }

    fn is_zero(self) -> (r: bool) {
        self == 0
    }

    fn next(self) -> (r: Result<Self, OutOfIdsError>) {
        let result = self + 1;
        if !result.has_top() {
            Ok(result)
        } else {
            Err(OutOfIdsError)
        }
    }
}

proof fn lemma_u16_top(x: u16)
    by (bit_vector)
    ensures
        x & !0x8000u16 == x % 0x8000u16,
        (x & 0x8000u16 == 0x8000u16) == (x >= 0x8000u16),
{
}

impl ConnectionWord for u16 {
    open spec fn value(self) -> nat {
        self as nat
    }

    open spec fn top() -> nat {
        0x8000
    }

    proof fn lemma_word(w: Self) {
    }

    proof fn lemma_value_injective(a: Self, b: Self) {
    }

    fn top_bit() -> (r: Self) {
        0x8000
    }

    fn zero() -> (r: Self) {
        0
    }

    fn max_count() -> (r: usize) {
        0x7fff
    }

    fn without_top(self) -> (r: Self) {
        proof {
            lemma_u16_top(self);
        }
        self & !Self::top_bit()
    }

    fn has_top(self) -> (r: bool) {
        proof {
            lemma_u16_top(self);
        }
        self & Self::top_bit() == Self::top_bit()
    }

    fn is_zero(self) -> (r: bool) {
        self == 0
    }

    fn next(self) -> (r: Result<Self, OutOfIdsError>) {
        let result = self + 1;
        if !result.has_top() {
            Ok(result)
        } else {
            Err(OutOfIdsError)
        }
    }
}

proof fn lemma_u32_top(x: u32)
    by (bit_vector)
    ensures
        x & !0x8000_0000u32 == x % 0x8000_0000u32,
        (x & 0x8000_0000u32 == 0x8000_0000u32) == (x >= 0x8000_0000u32),
{
}

impl ConnectionWord for u32 {
    open spec fn value(self) -> nat {
        self as nat
    }

    open spec fn top() -> nat {
        0x8000_0000
    }

    proof fn lemma_word(w: Self) {
    }

    proof fn lemma_value_injective(a: Self, b: Self) {
    }

    fn top_bit() -> (r: Self) {
        0x8000_0000
    }

    fn zero() -> (r: Self) {
        0
    }

    fn max_count() -> (r: usize) {
        0x7fff_ffff
    }

    fn without_top(self) -> (r: Self) {
        proof {
            lemma_u32_top(self);
        }
        self & !Self::top_bit()
    }

    fn has_top(self) -> (r: bool) {
        proof {
            lemma_u32_top(self);
        }
        self & Self::top_bit() == Self::top_bit()
    }

    fn is_zero(self) -> (r: bool) {
        self == 0
    }

    fn next(self) -> (r: Result<Self, OutOfIdsError>) {
        let result = self + 1;
        if !result.has_top() {
            Ok(result)
        } else {
            Err(OutOfIdsError)
        }
    }
}

/// Unique identifier for a connection.
#[derive(Debug, Clone, Copy, PartialEq, Eq, PartialOrd, Ord)]
pub struct ConnectionId<W: ConnectionWord>(W);

impl<W: ConnectionWord> ConnectionId<W> {
    /// The numeric value of the id.
    pub closed spec fn value(self) -> nat {
        self.0.value()
    }

    /// Ids with the same value are the same id.
    pub proof fn lemma_value_determines(a: Self, b: Self)
        requires
            a.value() == b.value(),
        ensures
            a == b,
    {
        W::lemma_value_injective(a.0, b.0);
    }

    /// Maximum concurrent active connections possible using this identifier.
    pub fn max_count() -> (r: usize)
        ensures
            r == W::top() - 1,
    {
        W::max_count()
    }

    fn new(id: W) -> (r: Option<Self>)
        ensures
            r == if id.value() != 0 {
                Some(ConnectionId(id))
            } else {
                None
            },
    {
        if !id.is_zero() {
            Some(ConnectionId(id))
        } else {
            None
        }
    }

    fn placeholder() -> (r: Self)
        ensures
            r.value() == 0,
    {
        ConnectionId(W::zero())
    }

    /// Advance to the next connection id.
    fn inc(&mut self) -> (r: Result<(), OutOfIdsError>)
        requires
            old(self).value() < W::top(),
        ensures
            old(self).value() + 1 < W::top() ==> r is Ok && final(self).value() == old(self).value()
                + 1,
            old(self).value() + 1 >= W::top() ==> r is Err && *final(self) == *old(self),
    {
        proof {
            W::lemma_word(self.0);
        }
        match self.0.next() {
            Ok(w) => {
                self.0 = w;
                Ok(())
            },
            Err(e) => Err(e),
        }
    }

    fn as_option(self) -> (r: Option<Self>)
        ensures
            r == if self.value() != 0 {
                Some(self)
            } else {
                None
            },
    {
        if !self.0.is_zero() {
            Some(ConnectionId(self.0))
        } else {
            None
        }
    }
}

/// Header section used for managing connections.
///
/// Under the hood combines a command flag (the top bit: drop) as well as a connection id.
#[derive(Debug, Clone, Copy)]
pub struct ConnectionSection<W: ConnectionWord>(W);

impl<W: ConnectionWord> ConnectionSection<W> {
    /// The numeric value of the section.
    pub closed spec fn value(self) -> nat {
        self.0.value()
    }

    /// Sections with the same value are the same section.
    pub proof fn lemma_value_determines(a: Self, b: Self)
        requires
            a.value() == b.value(),
        ensures
            a == b,
    {
        W::lemma_value_injective(a.0, b.0);
    }

    /// The section converted from an id carries the id's value.
    pub proof fn lemma_from_id(id: ConnectionId<W>)
        ensures
            <ConnectionSection<W> as vstd::std_specs::convert::FromSpec<ConnectionId<W>>>::from_spec(id).value() == id.value(),
    {
    }

    /// The id part: the value without the top bit.
    pub open spec fn id_part(self) -> nat {
        self.value() % W::top()
    }

    /// The connection id the section carries, if any.
    pub fn connection_id(self) -> (r: Option<ConnectionId<W>>)
        ensures
            r is Some <==> self.id_part() != 0,
            r is Some ==> r->Some_0.value() == self.id_part(),
    {
        ConnectionId::new(self.0.without_top())
    }

    /// Construct a section requesting a new connection.
    pub fn request() -> (r: Self)
        ensures
            r.value() == 0,
    {
        ConnectionSection(W::zero())
    }

    /// Construct a section accepting a new connection and giving it the provided id.
    pub fn accept(id: ConnectionId<W>) -> (r: Self)
        ensures
            r.value() == id.value(),
    {
        ConnectionSection(id.0)
    }

    /// Construct a section dropping the connection.
    pub fn drop() -> (r: Self)
        ensures
            r.value() == W::top(),
    {
        ConnectionSection(W::top_bit())
    }

    /// The state of the connection the section announces.
    pub open spec fn state_spec(self) -> ConnectionState {
        if self.value() == 0 {
            ConnectionState::Pending
        } else if self.value() >= W::top() {
            ConnectionState::Dropped
        } else {
            ConnectionState::Accepted
        }
    }

    fn next_state(self) -> (r: ConnectionState)
        ensures
            r == self.state_spec(),
    {
        if self.0.is_zero() {
            ConnectionState::Pending
        } else if self.0.has_top() {
            ConnectionState::Dropped
        } else {
            ConnectionState::Accepted
        }
    }
}

impl<W: ConnectionWord> From<ConnectionId<W>> for ConnectionSection<W> {
    fn from(value: ConnectionId<W>) -> (r: Self)
        ensures
            r.value() == value.value(),
    {
        ConnectionSection(value.0)
    }
}

impl<W: ConnectionWord> vstd::std_specs::convert::FromSpecImpl<ConnectionId<W>> for ConnectionSection<W> {
    open spec fn obeys_from_spec() -> bool {
        true
    }

    closed spec fn from_spec(v: ConnectionId<W>) -> Self {
        ConnectionSection(v.0)
    }
}

/// An idea of a connection between two separate nodes, reachable at a peer address of type
/// `A`.
#[derive(Debug, Clone)]
pub struct Connection<W: ConnectionWord, A> {
    id: ConnectionId<W>,
    state: ConnectionState,
    peer_addr: A,
}

impl<W: ConnectionWord, A: Copy> Connection<W, A> {
    /// The id of the connection; zero while it is pending.
    pub closed spec fn id_spec(self) -> ConnectionId<W> {
        self.id
    }

    pub closed spec fn state_spec(self) -> ConnectionState {
        self.state
    }

    pub closed spec fn peer_spec(self) -> A {
        self.peer_addr
    }

    /// The id of the connection, if it has one.
    pub fn id(&self) -> (r: Option<ConnectionId<W>>)
        ensures
            r == if self.id_spec().value() != 0 {
                Some(self.id_spec())
            } else {
                None
            },
    {
        self.id.as_option()
    }

    pub fn state(&self) -> (r: ConnectionState)
        ensures
            r == self.state_spec(),
    {
        self.state
    }

    /// Get the associated peer (other end of the connection) address.
    pub fn peer_addr(&self) -> (r: A)
        ensures
            r == self.peer_spec(),
    {
        self.peer_addr
    }

    /// Get the header section that should be sent with any packets for maintaining the
    /// connection: a request while pending, the id once accepted, nothing once dropped.
    pub fn header_section(&self) -> (r: Option<ConnectionSection<W>>)
        ensures
            self.state_spec() == ConnectionState::Pending ==> r is Some && r->Some_0.value() == 0,
            self.state_spec() == ConnectionState::Accepted ==> r is Some && r->Some_0.value()
                == self.id_spec().value(),
            self.state_spec() == ConnectionState::Dropped ==> r is None,
    {
        match self.state {
            ConnectionState::Pending => Some(ConnectionSection::request()),
            ConnectionState::Accepted => Some(self.id.into()),
            ConnectionState::Dropped => None,
        }
    }

    /// A connection requested from the peer at `peer_addr`, pending its acceptance.
    pub fn pending(peer_addr: A) -> (r: Self)
        ensures
            r.id_spec().value() == 0,
            r.state_spec() == ConnectionState::Pending,
            r.peer_spec() == peer_addr,
    {
        Connection { id: ConnectionId::placeholder(), state: ConnectionState::Pending, peer_addr }
    }

    /// A connection from the peer at `peer_addr` accepted under the id `id`.
    pub fn accept(peer_addr: A, id: ConnectionId<W>) -> (r: Self)
        ensures
            r.id_spec() == id,
            r.state_spec() == ConnectionState::Accepted,
            r.peer_spec() == peer_addr,
    {
        Connection { id, state: ConnectionState::Accepted, peer_addr }
    }
}

/// Allocator for connection ids, facilitates reuse of no-longer active connection ids.
pub struct ConnectionIdAllocator<W: ConnectionWord> {
    next: ConnectionId<W>,
    free: Vec<ConnectionId<W>>,
}

impl<W: ConnectionWord> ConnectionIdAllocator<W> {
    /// The last fresh id handed out is below the top bit.
    #[verifier::type_invariant]
    spec fn well_formed(self) -> bool {
        self.next.value() < W::top()
    }

    /// The value of the last fresh id handed out (zero before the first).
    pub closed spec fn last_fresh(self) -> nat {
        self.next.value()
    }

    /// The freed ids, to be reused last-freed first.
    pub closed spec fn free_ids(self) -> Seq<ConnectionId<W>> {
        self.free@
    }

    pub fn new() -> (r: Self)
        ensures
            r.last_fresh() == 0,
            r.free_ids() == Seq::<ConnectionId<W>>::empty(),
    {
        let next = ConnectionId::placeholder();
        proof {
            W::lemma_word(next.0);
        }
        ConnectionIdAllocator { next, free: Vec::new() }
    }

    /// Allocate an id: the most recently freed one if there is any, a fresh one otherwise.
    pub fn allocate(&mut self) -> (r: Result<ConnectionId<W>, OutOfIdsError>)
        ensures
            old(self).free_ids().len() > 0 ==> {
                &&& r == Ok::<ConnectionId<W>, OutOfIdsError>(old(self).free_ids().last())
                &&& final(self).free_ids() == old(self).free_ids().drop_last()
                &&& final(self).last_fresh() == old(self).last_fresh()
            },
            old(self).free_ids().len() == 0 && old(self).last_fresh() + 1 < W::top() ==> {
                &&& r is Ok
                &&& r->Ok_0.value() == old(self).last_fresh() + 1
                &&& final(self).last_fresh() == old(self).last_fresh() + 1
                &&& final(self).free_ids() == old(self).free_ids()
            },
            old(self).free_ids().len() == 0 && old(self).last_fresh() + 1 >= W::top() ==> {
                &&& r is Err
                &&& final(self).last_fresh() == old(self).last_fresh()
                &&& final(self).free_ids() == old(self).free_ids()
            },
    {
        proof {
            use_type_invariant(&*self);
        }
        let mut current = ConnectionIdAllocator::new();
        core::mem::swap(self, &mut current);
        proof {
            use_type_invariant(&current);
        }
        let ConnectionIdAllocator { mut next, mut free } = current;
        let r = match free.pop() {
            Some(id) => Ok(id),
            None => match next.inc() {
                Ok(()) => Ok(next),
                Err(e) => Err(e),
            },
        };
        *self = ConnectionIdAllocator { next, free };
        r
    }

    /// Return an id to the allocator for reuse.
    pub fn free(&mut self, id: ConnectionId<W>)
        ensures
            final(self).free_ids() == old(self).free_ids().push(id),
            final(self).last_fresh() == old(self).last_fresh(),
    {
        let mut current = ConnectionIdAllocator::new();
        core::mem::swap(self, &mut current);
        proof {
            use_type_invariant(&current);
        }
        let ConnectionIdAllocator { next, mut free } = current;
        free.push(id);
        *self = ConnectionIdAllocator { next, free };
    }
}

} // verus!

verus! {

/// A section accepting a connection carries exactly that connection's id and announces an
/// accepted connection.
pub proof fn law_accept_carries_id<W: ConnectionWord>(id: ConnectionId<W>, s: ConnectionSection<W>)
    requires
        0 < id.value() < W::top(),
        s.value() == id.value(),
    ensures
        s.id_part() == id.value(),
        s.state_spec() == ConnectionState::Accepted,
{
    vstd::arithmetic::div_mod::lemma_small_mod(s.value(), W::top());
}

/// The id read back from a section accepting a connection is that connection's id.
pub proof fn law_accept_id_round_trip<W: ConnectionWord>(
    id: ConnectionId<W>,
    s: ConnectionSection<W>,
    r: Option<ConnectionId<W>>,
)
    requires
        0 < id.value() < W::top(),
        s.value() == id.value(),
        r is Some <==> s.id_part() != 0,
        r is Some ==> r->Some_0.value() == s.id_part(),
    ensures
        r == Some(id),
{
    vstd::arithmetic::div_mod::lemma_small_mod(s.value(), W::top());
    ConnectionId::<W>::lemma_value_determines(r->Some_0, id);
}

/// A request carries no id and announces a pending connection; a drop carries no id and
/// announces a dropped connection.
pub proof fn law_request_and_drop_carry_no_id<W: ConnectionWord>(s: ConnectionSection<W>)
    requires
        s.value() == 0 || s.value() == W::top(),
    ensures
        s.id_part() == 0,
        s.value() == 0 ==> s.state_spec() == ConnectionState::Pending,
        s.value() == W::top() ==> s.state_spec() == ConnectionState::Dropped,
{
    W::lemma_word(s.0);
}

} // verus!
