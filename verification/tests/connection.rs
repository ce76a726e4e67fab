use netforge::connection::{
    Connection, ConnectionId, ConnectionIdAllocator, ConnectionSection, ConnectionState,
    ConnectionWord, OutOfIdsError,
};

#[test]
fn sections_carry_ids() {
    let mut alloc = ConnectionIdAllocator::<u8>::new();
    let id = alloc.allocate().unwrap();
    let accept = ConnectionSection::accept(id);
    assert_eq!(accept.connection_id(), Some(id));
    assert_eq!(ConnectionSection::<u8>::request().connection_id(), None);
    assert_eq!(ConnectionSection::<u8>::drop().connection_id(), None);
    let from: ConnectionSection<u8> = id.into();
    assert_eq!(from.connection_id(), Some(id));
}

#[test]
fn allocator_reuses_freed_ids_last_first() {
    let mut alloc = ConnectionIdAllocator::<u16>::new();
    let a = alloc.allocate().unwrap();
    let b = alloc.allocate().unwrap();
    let c = alloc.allocate().unwrap();
    assert!(a < b && b < c);
    alloc.free(a);
    alloc.free(c);
    assert_eq!(alloc.allocate(), Ok(c));
    assert_eq!(alloc.allocate(), Ok(a));
    let d = alloc.allocate().unwrap();
    assert!(d > c);
}

#[test]
fn allocator_runs_out_of_ids() {
    let mut alloc = ConnectionIdAllocator::<u8>::new();
    for _ in 0..ConnectionId::<u8>::max_count() {
        assert!(alloc.allocate().is_ok());
    }
    assert_eq!(alloc.allocate(), Err(OutOfIdsError));
    assert_eq!(ConnectionId::<u16>::max_count(), 0x7fff);
    assert_eq!(ConnectionId::<u32>::max_count(), 0x7fff_ffff);
}

#[test]
fn connection_header_sections() {
    let pending: Connection<u32, u8> = Connection::pending(9);
    assert_eq!(pending.state(), ConnectionState::Pending);
    assert_eq!(pending.id(), None);
    assert_eq!(pending.header_section().unwrap().connection_id(), None);
    assert_eq!(pending.peer_addr(), 9);
    let mut alloc = ConnectionIdAllocator::<u32>::new();
    let id = alloc.allocate().unwrap();
    let accepted = Connection::accept(7u8, id);
    assert_eq!(accepted.state(), ConnectionState::Accepted);
    assert_eq!(accepted.id(), Some(id));
    assert_eq!(accepted.header_section().unwrap().connection_id(), Some(id));
}

#[test]
fn connection_words() {
    assert_eq!(<u8 as ConnectionWord>::top_bit(), 0x80);
    assert_eq!(0x85u8.without_top(), 5);
    assert!(0x85u8.has_top());
    assert!(!0x05u8.has_top());
    assert_eq!(5u16.next(), Ok(6));
    assert_eq!(0x7fffu16.next(), Err(OutOfIdsError));
    assert!(<u32 as ConnectionWord>::zero().is_zero());
    assert_eq!(<u32 as ConnectionWord>::max_count(), 0x7fff_ffff);
}
