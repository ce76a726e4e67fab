use netforge::reliability::bitmask::Bitmask;
use netforge::reliability::seq::{AckBlock, AckSequence, HoleError, OutOfBoundsError, SeqId};

fn seq(index: u16) -> SeqId {
    SeqId(index)
}

#[test]
fn seq_id_buffer_detects_set_bit() {
    let mut buffer = AckBlock::<u32>::preset();
    buffer.set_strict(seq(1)).unwrap();

    assert!(buffer.is_set(seq(1)).unwrap());

    assert_eq!(buffer.is_set(seq(2)), Err(OutOfBoundsError));
    assert!(!buffer.is_set_and_in_bounds(seq(2)));

    buffer.set_strict(seq(2)).unwrap();
    assert!(buffer.is_set(seq(1)).unwrap());
    assert!(buffer.is_set(seq(2)).unwrap());

    assert_eq!(buffer.set_strict(seq(256)), Err(HoleError));
    buffer.set_lossy(seq(256));
    assert!(buffer.is_set_and_in_bounds(seq(256)));
    assert!(!buffer.is_set_and_in_bounds(seq(255)));
}

#[test]
fn seq_id_buffer_max_set_bit() {
    let mut buffer = AckBlock::<u32>::preset();
    let max_idx = buffer.max_safe_set_idx();
    buffer.set_strict(max_idx).unwrap();

    let mut buffer = AckBlock::<u32>::preset();
    let max_idx = buffer.max_safe_set_idx() + 1;
    assert_eq!(buffer.set_strict(max_idx), Err(HoleError));
}

#[test]
fn ack_seq_following_packets() {
    let old = AckBlock { index: seq(1), mask: 0u32 };
    let new = AckBlock { index: seq(2), mask: 0u32 };

    let acks: Vec<SeqId> = AckSequence::new(&new, &old).collect();
    assert_eq!(acks, vec![seq(2)]);
}

#[test]
fn ack_seq_gap() {
    let old = AckBlock { index: seq(1), mask: 0u32 };
    let new = AckBlock { index: seq(3), mask: 0u32 };
    let acks: Vec<SeqId> = AckSequence::new(&new, &old).collect();
    assert_eq!(acks, vec![seq(3)]);
}

#[test]
fn ack_seq_gap_with_mask() {
    let old = AckBlock { index: seq(1), mask: 0u32 };
    let new = AckBlock { index: seq(4), mask: 0b11u32 << (u32::BITS - 2) };

    let acks: Vec<SeqId> = AckSequence::new(&new, &old).collect();
    assert_eq!(acks, vec![seq(2), seq(3), seq(4)]);
}

#[test]
fn seq_id_wrapped_values_are_newer() {
    assert!(seq(1) > seq(65_000));
    assert!(seq(65_000) < seq(1));
    assert!(seq(2) > seq(1));
    assert!(seq(0) > seq(u16::MAX));
    assert!(seq(7) >= seq(7));
}

#[test]
fn seq_id_half_way_is_older_both_ways() {
    assert!(seq(0) < seq(0x8000));
    assert!(seq(0x8000) < seq(0));
}

#[test]
fn seq_id_next_and_inc_wrap() {
    let mut id = seq(u16::MAX);
    assert_eq!(id.next(), seq(0));
    id.inc();
    assert_eq!(id, seq(0));
    assert_eq!(SeqId::zero(), SeqId::default());
    assert_eq!(SeqId::zero().next(), seq(1));
}

#[test]
fn seq_id_add_and_sub_wrap() {
    assert_eq!(seq(65_535) + 2, seq(1));
    assert_eq!(seq(1) - seq(65_535), 2);
    assert_eq!(seq(10) - seq(3), 7);
    assert_eq!((seq(40_000) + 30_000) - seq(40_000), 30_000);
}

#[test]
fn ack_block_empty_and_preset() {
    let empty = AckBlock::<u8>::empty();
    assert_eq!(empty.index, seq(0));
    assert_eq!(empty.mask, 0);
    let preset = AckBlock::<u8>::preset();
    assert_eq!(preset.mask, u8::MAX);
    assert_eq!(preset.max_safe_set_idx(), seq(8));
    assert_eq!(empty.max_safe_set_idx(), seq(0));
}

#[test]
fn ack_block_is_set_window_edges() {
    let block = AckBlock { index: seq(40), mask: 0b1000_0001u8 };
    assert_eq!(block.is_set(seq(40)), Ok(true));
    assert_eq!(block.is_set(seq(39)), Ok(true));
    assert_eq!(block.is_set(seq(38)), Ok(false));
    assert_eq!(block.is_set(seq(32)), Ok(true));
    assert_eq!(block.is_set(seq(31)), Err(OutOfBoundsError));
    assert_eq!(block.is_set(seq(41)), Err(OutOfBoundsError));
}

#[test]
fn ack_block_set_in_window_and_forward() {
    let mut block = AckBlock { index: seq(10), mask: 0u8 };
    assert_eq!(block.set_strict(seq(7)), Ok(()));
    assert_eq!(block.mask, 0b100);
    assert_eq!(block.set_strict(seq(10)), Ok(()));
    assert_eq!(block.index, seq(10));
    // moving forward by one keeps the old index as acknowledged
    let mut block = AckBlock { index: seq(10), mask: 0xffu8 };
    assert_eq!(block.set_strict(seq(12)), Ok(()));
    assert_eq!(block.index, seq(12));
    assert_eq!(block.mask, 0b1111_1110);
    assert!(block.is_set_and_in_bounds(seq(10)));
    assert!(!block.is_set_and_in_bounds(seq(11)));
}

#[test]
fn ack_block_forward_by_full_width() {
    let mut block = AckBlock::<u8>::preset();
    assert_eq!(block.set_strict(seq(8)), Ok(()));
    assert_eq!(block.index, seq(8));
    assert_eq!(block.mask, 0b1000_0000);
    assert!(block.is_set_and_in_bounds(seq(0)));
    assert!(!block.is_set_and_in_bounds(seq(7)));
}

#[test]
fn ack_block_strict_hole_leaves_block_unchanged() {
    let mut block = AckBlock { index: seq(5), mask: 0b0111_1111u8 };
    assert_eq!(block.set_strict(seq(6)), Err(HoleError));
    assert_eq!(block.index, seq(5));
    assert_eq!(block.mask, 0b0111_1111);
    assert!(block.set_lossy(seq(6)));
    assert_eq!(block.index, seq(6));
    assert_eq!(block.mask, 0);
    assert!(!block.set_lossy(seq(5)));
    assert_eq!(block.mask, 1);
}

#[test]
fn ack_block_update_keeps_newer() {
    let mut block = AckBlock { index: seq(10), mask: 0b11u8 };
    let older = AckBlock { index: seq(9), mask: 0xffu8 };
    let r = block.update(&older);
    assert_eq!(r, AckSequence(None));
    assert_eq!(block.index, seq(10));
    assert_eq!(block.mask, 0b11);

    let newer = AckBlock { index: seq(12), mask: 0b1_0011u8 };
    let r = block.update(&newer);
    assert_eq!(block.index, seq(12));
    assert_eq!(block.mask, 0b1_0011);
    // the old index sits at bit 1 of the new block and the old bits at 2 and 3: they are cleared
    assert_eq!(r, AckSequence(Some((seq(12), 0b1_0001u8))));
    assert_eq!(r.count(), 3);
}

#[test]
fn ack_block_update_same_index() {
    let mut block = AckBlock { index: seq(20), mask: 0b0001u8 };
    let same = AckBlock { index: seq(20), mask: 0b1101u8 };
    let r = block.update(&same);
    // bits 2 and 3 are fresh: the lowest becomes the last id, the other stays in the mask
    assert_eq!(r, AckSequence(Some((seq(18), 0b10u8))));
    assert_eq!(r.count(), 2);
    assert_eq!(block.mask, 0b1101);
    let again = block.update(&same);
    assert_eq!(again, AckSequence(None));
}

#[test]
fn ack_sequence_next_and_count() {
    let mut acks = AckSequence(Some((seq(100), 0b1010u8)));
    assert_eq!(acks.count(), 3);
    assert_eq!(acks.next(), Some(seq(93)));
    assert_eq!(acks.next(), Some(seq(95)));
    assert_eq!(acks.count(), 1);
    assert_eq!(acks.next(), Some(seq(100)));
    assert_eq!(acks.next(), None);
    assert_eq!(acks.count(), 0);
}

#[test]
fn ack_sequence_from_block() {
    let none: AckSequence<u16> = AckBlock::<u16>::empty().into();
    assert_eq!(none.count(), 0);
    let some: AckSequence<u16> = AckBlock { index: seq(3), mask: 0u16 }.into();
    assert_eq!(some.collect(), vec![seq(3)]);
    let preset: AckSequence<u16> = AckBlock::<u16>::preset().into();
    assert_eq!(preset.count(), 17);
}

#[test]
fn ack_sequence_count_matches_collect() {
    let acks = AckSequence(Some((seq(2), 0xf0f0_0000_0000_0001u64)));
    let all = acks.collect();
    assert_eq!(all.len(), acks.count() as usize);
    assert_eq!(all.len(), 10);
    assert_eq!(all[0], seq(65_474));
    assert_eq!(*all.last().unwrap(), seq(2));
}

#[test]
fn bitmask_operations() {
    let mut m = <u16 as Bitmask>::empty();
    assert!(m.is_empty());
    m.set(3);
    m.set(15);
    assert!(m.is_set(3) && m.is_set(15) && !m.is_set(4));
    assert_eq!(m.count_ones(), 2);
    assert_eq!(m.highest_ones(), 1);
    assert_eq!(m.lowest_zeros(), 3);
    m.unset(15);
    assert_eq!(m, 0b1000);
    let before_shift = m.is_set(2);
    m.shift(3);
    assert_eq!(m.is_set(2 + 3), before_shift);
    assert_eq!(m, 0b100_0000);
    m.unshift(6);
    assert_eq!(m, 1);
    m.shift(16);
    assert_eq!(m, 0);
    let mut f = <u64 as Bitmask>::filled();
    assert_eq!(f.highest_ones(), 64);
    assert_eq!(f.count_ones(), 64);
    f.unset_every(0xffff_ffff);
    assert_eq!(f.lowest_zeros(), 32);
    assert_eq!(<u8 as Bitmask>::max_bits(), 8);
    assert_eq!(<u32 as Bitmask>::max_bits(), 32);
    assert_eq!(<u8 as Bitmask>::empty().lowest_zeros(), 8);
}

#[test]
fn ack_sequence_one_fresh_bit_with_equal_index() {
    let old = AckBlock { index: seq(30), mask: 0u16 };
    let new = AckBlock { index: seq(30), mask: 0b100u16 };
    let acks = AckSequence::new(&new, &old);
    assert_eq!(acks.count(), 1);
    assert_eq!(acks.collect().len(), 1);
}
