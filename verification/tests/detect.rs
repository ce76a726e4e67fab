use netforge::reliability::bitmask::Bitmask;
use netforge::reliability::seq::{AckBlock, HoleError, SeqId};
use netforge::reliability::AckSection;
use netforge::DeliveryDetector;

type BM = u32;

#[test]
fn test_prepare_send_fails_after_max_packets() {
    let mut sender = DeliveryDetector::<BM>::new();

    for _ in 0..BM::max_bits() {
        sender.prepare_send_strict().unwrap();
    }

    assert!(sender.prepare_send_strict().is_err());
}

#[test]
fn test_receive_256_packets_in_strict() {
    let mut sender = DeliveryDetector::<BM>::new();
    let mut receiver = DeliveryDetector::<BM>::new();

    for i in 0..256 {
        let header = sender.prepare_send_lossy();
        assert!(receiver.record_received_strict(&header).is_ok(), "Failed on {i} receive");
    }
}

#[test]
fn test_fail_record_after_max_packets_in_strict() {
    let mut sender = DeliveryDetector::<BM>::new();
    let mut receiver = DeliveryDetector::<BM>::new();

    for _ in 0..BM::max_bits() {
        let _ = sender.prepare_send_lossy();
    }

    let header = sender.prepare_send_lossy();
    assert_eq!(receiver.record_received_strict(&header), Err(HoleError));
}

#[test]
fn test_detects_loss() {
    let mut sender = DeliveryDetector::<BM>::new();
    let mut receiver = DeliveryDetector::<BM>::new();

    for i in 0..BM::max_bits() {
        let header = sender.prepare_send_lossy();
        if i != 10 {
            receiver.record_received_strict(&header).unwrap();
        }
    }

    let changes = sender.record_received_strict(&receiver.prepare_send_strict().unwrap()).unwrap();

    assert_eq!(changes.count(), BM::max_bits() - 1);

    // DeliveryDetector starts by sending index 1
    let mut index = SeqId::zero().next();
    for i in 0..BM::max_bits() {
        assert_eq!(sender.is_delivered(index), i != 10);
        index.inc();
    }
}

#[test]
fn detector_next_index_and_resend() {
    let mut dd = DeliveryDetector::<u8>::new();
    assert_eq!(dd.next_index(), SeqId(1));
    let first = dd.prepare_send_lossy();
    assert_eq!(first.index, SeqId(1));
    assert_eq!(dd.next_index(), SeqId(2));
    let again = dd.prepare_resend(SeqId(1));
    assert_eq!(again.index, SeqId(1));
    assert_eq!(again.acks.index, first.acks.index);
    assert_eq!(again.acks.mask, first.acks.mask);
}

#[test]
fn detector_lossy_record_always_acknowledges() {
    let mut sender = DeliveryDetector::<u8>::new();
    let mut receiver = DeliveryDetector::<u8>::new();
    for _ in 0..20 {
        let _ = sender.prepare_send_lossy();
    }
    let header = sender.prepare_send_lossy();
    assert_eq!(header.index, SeqId(21));
    let _ = receiver.record_received_lossy(&header);
    let reply = receiver.prepare_send_lossy();
    assert_eq!(reply.acks.index, SeqId(21));
    assert!(reply.acks.is_set_and_in_bounds(SeqId(21)));
    assert!(!reply.acks.is_set_and_in_bounds(SeqId(20)));
}

#[test]
fn detector_round_trip_reports_delivery() {
    let mut a = DeliveryDetector::<u16>::new();
    let mut b = DeliveryDetector::<u16>::new();
    let h1 = a.prepare_send_strict().unwrap();
    let h2 = a.prepare_send_strict().unwrap();
    assert!(b.record_received_strict(&h2).is_ok());
    assert!(b.record_received_strict(&h1).is_ok());
    let reply = b.prepare_send_strict().unwrap();
    let fresh = a.record_received_strict(&reply).unwrap();
    assert!(a.is_delivered(h1.index));
    assert!(a.is_delivered(h2.index));
    assert!(!a.is_delivered(SeqId(3)));
    assert_eq!(fresh.count(), 2);
    assert_eq!(a.delivered_packets().count(), 17);
}

#[test]
fn ack_section_default_is_empty() {
    let section = AckSection::<u32>::default();
    assert_eq!(section.index, SeqId(0));
    assert_eq!(section.acks.index, SeqId(0));
    assert_eq!(section.acks.mask, 0);
}

#[test]
fn recordable_headers_and_lossy_matches_strict() {
    let mut sender = DeliveryDetector::<u8>::new();
    let mut receiver = DeliveryDetector::<u8>::new();
    let header = sender.prepare_send_strict().unwrap();
    assert!(receiver.is_recordable(&header));
    let mut lossy = receiver.clone();
    let strict_seq = receiver.record_received_strict(&header).unwrap();
    let lossy_seq = lossy.record_received_lossy(&header);
    assert_eq!(strict_seq, lossy_seq);
    assert_eq!(receiver.next_index(), lossy.next_index());
    let a = receiver.prepare_resend(SeqId(9));
    let b = lossy.prepare_resend(SeqId(9));
    assert_eq!(a.acks.index, b.acks.index);
    assert_eq!(a.acks.mask, b.acks.mask);

    // with equal indices, a fresh bit above the index cannot be re-based below zero
    let block = AckBlock { index: SeqId(1), mask: 0u8 };
    assert!(!block.can_update(&AckBlock { index: SeqId(1), mask: 0b100u8 }));
    assert!(block.can_update(&AckBlock { index: SeqId(1), mask: 0b1u8 }));
    assert!(block.can_update(&AckBlock { index: SeqId(5), mask: 0b100u8 }));
}
