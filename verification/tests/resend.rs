use netforge::reliability::resend::MaxPacketsInFlightError;
use netforge::reliability::seq::{HoleError, SeqId};
use netforge::reliability::strategy::{ResendIfMoreLaterAcks, ResendStrategy};
use netforge::{DeliveryDetector, ResendCoordinator, ResendIf};

#[test]
fn strategy_thresholds() {
    let mut gt = ResendIf::later_acks_gt(2);
    assert!(!gt.is_lost(&mut (), 2));
    assert!(gt.is_lost(&mut (), 3));
    let mut ge = ResendIf::later_acks_ge(2);
    assert!(ge.is_lost(&mut (), 2));
    assert!(!ge.is_lost(&mut (), 1));
    let mut max = ResendIf::later_acks_ge(u16::MAX);
    assert!(max.is_lost(&mut (), u16::MAX));
    let mut always = ResendIf::later_acks_ge(0);
    assert!(always.is_lost(&mut (), 0));
    let mut never = ResendIf::later_acks_gt(u16::MAX);
    assert!(!never.is_lost(&mut (), u16::MAX));
    let mut n = ResendIfMoreLaterAcks::new(0);
    assert!(n.is_lost(&mut (), 1));
    n.build_metadata();
}

#[test]
fn coordinator_limits_packets_in_flight() {
    let mut rc: ResendCoordinator<ResendIfMoreLaterAcks, u8, 8> =
        ResendCoordinator::new(ResendIf::later_acks_gt(0));
    for i in 1..=8u16 {
        let header = rc.prepare_send().unwrap();
        assert_eq!(header.index, SeqId(i));
    }
    assert_eq!(rc.prepare_send().err(), Some(MaxPacketsInFlightError));
    let again = rc.prepare_resend(SeqId(3));
    assert_eq!(again.index, SeqId(3));
}

#[test]
fn coordinator_resends_undelivered() {
    let mut rc: ResendCoordinator<ResendIfMoreLaterAcks, u8, 8> =
        ResendCoordinator::new(ResendIf::later_acks_gt(0));
    let mut remote = DeliveryDetector::<u8>::new();
    let mut headers = Vec::new();
    for _ in 0..4 {
        headers.push(rc.prepare_send().unwrap());
    }
    // the remote side receives every packet but the second one
    for (k, header) in headers.iter().enumerate() {
        if k != 1 {
            remote.record_received_strict(header).unwrap();
        }
    }
    let reply = remote.prepare_send_strict().unwrap();
    let fresh = rc.record_received(&reply).unwrap();
    assert_eq!(fresh.count(), 3);
    // packet 2 is missing and the two packets sent after it are delivered
    assert_eq!(rc.packets_to_resend(), vec![SeqId(2)]);
    let mut probe = *rc.strategy();
    assert!(probe.is_lost(&mut (), 1));
}

#[test]
fn coordinator_record_hole() {
    let mut rc: ResendCoordinator<ResendIfMoreLaterAcks, u8, 8> =
        ResendCoordinator::new(ResendIf::later_acks_gt(1));
    let mut remote = DeliveryDetector::<u8>::new();
    for _ in 0..9 {
        let _ = remote.prepare_send_lossy();
    }
    let header = remote.prepare_send_lossy();
    assert_eq!(rc.record_received(&header).err(), Some(HoleError));
}

#[test]
fn coordinator_swaps_strategy() {
    let mut rc: ResendCoordinator<ResendIfMoreLaterAcks, u16, 16> =
        ResendCoordinator::new(ResendIf::later_acks_gt(5));
    let _ = rc.prepare_send().unwrap();
    *rc.strategy_mut() = ResendIf::later_acks_gt(0);
    let mut probe = *rc.strategy();
    assert!(probe.is_lost(&mut (), 1));
    let rc = rc.with_strategy(ResendIf::later_acks_gt(3));
    let mut probe = *rc.strategy();
    assert!(!probe.is_lost(&mut (), 3));
    let mut rc = rc.with_new_strategy(ResendIf::later_acks_ge(3));
    let mut probe = *rc.strategy();
    assert!(probe.is_lost(&mut (), 3));
    assert!(rc.prepare_send().is_ok());
}

#[test]
fn max_packets_error_from_hole() {
    let e: MaxPacketsInFlightError = HoleError.into();
    assert_eq!(e, MaxPacketsInFlightError);
}

#[test]
fn resend_selection_follows_later_acks() {
    let mut rc: ResendCoordinator<ResendIfMoreLaterAcks, u8, 8> =
        ResendCoordinator::new(ResendIf::later_acks_gt(1));
    let mut remote = DeliveryDetector::<u8>::new();
    let mut headers = Vec::new();
    for _ in 0..6 {
        headers.push(rc.prepare_send().unwrap());
    }
    // the remote side receives every packet but those with ids 2 and 4
    for header in headers.iter() {
        if header.index != SeqId(2) && header.index != SeqId(4) {
            remote.record_received_strict(header).unwrap();
        }
    }
    let reply = remote.prepare_send_strict().unwrap();
    rc.record_received(&reply).unwrap();
    // three delivered packets (3, 5 and 6) were sent after id 2, two (5 and 6) after id 4
    assert_eq!(rc.clone().packets_to_resend(), vec![SeqId(2), SeqId(4)]);
    let mut stricter = rc.clone().with_strategy(ResendIf::later_acks_gt(2));
    assert_eq!(stricter.packets_to_resend(), vec![SeqId(2)]);
    let mut strictest = rc.with_strategy(ResendIf::later_acks_gt(3));
    assert_eq!(strictest.packets_to_resend(), Vec::<SeqId>::new());
}

#[test]
fn first_packet_in_flight_is_resent() {
    let mut rc: ResendCoordinator<ResendIfMoreLaterAcks, u32, 32> =
        ResendCoordinator::new(ResendIf::later_acks_ge(0));
    let header = rc.prepare_send().unwrap();
    assert_eq!(header.index, SeqId(1));
    assert_eq!(rc.packets_to_resend(), vec![SeqId(1)]);
}
