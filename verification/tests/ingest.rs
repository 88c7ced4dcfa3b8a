use insight_map_loader::mpt1::{Packet, Pose};
use insight_map_loader::{Device, Ingest, SlotState};

const MS: u64 = 1_000_000;

fn packet(device: Device, valid: bool) -> Packet {
    Packet {
        device,
        valid,
        battery_pct: 50,
        charging: false,
        t_ns: 1,
        pose: Pose::identity(),
        vel: Pose::identity().p,
        angvel: Pose::identity().p,
    }
}

#[test]
fn absent_until_something_arrives() {
    let ingest = Ingest::new(200 * MS);
    assert_eq!(ingest.state(Device::Waist as u8, 0), SlotState::Absent);
    assert!(ingest.live(0).is_empty());
}

#[test]
fn live_then_stale_and_not_tracking_is_distinct() {
    let mut ingest = Ingest::new(200 * MS);

    ingest.receive(&packet(Device::Waist, true).encode(), 10 * MS);
    assert_eq!(ingest.state(Device::Waist as u8, 20 * MS), SlotState::Live);
    assert_eq!(ingest.live(20 * MS).len(), 1);

    // A tracker that says it is lost is not the same as one that vanished.
    ingest.receive(&packet(Device::Waist, false).encode(), 30 * MS);
    assert_eq!(ingest.state(Device::Waist as u8, 40 * MS), SlotState::NotTracking);
    assert!(ingest.live(40 * MS).is_empty(), "a not-tracking pose must never be consumed");

    // Silence eventually reads as stale.
    assert_eq!(ingest.state(Device::Waist as u8, 230 * MS), SlotState::NotTracking);
    assert_eq!(ingest.state(Device::Waist as u8, 231 * MS), SlotState::Stale);

    let stats = ingest.stats();
    assert_eq!(stats.received, 2);
    assert_eq!(stats.malformed, 0);
}

#[test]
fn junk_is_counted_not_fatal() {
    let mut ingest = Ingest::new(5_000 * MS);
    ingest.receive(b"not an MPT1 packet", 1);
    ingest.receive(&packet(Device::RightFoot, true).encode(), 2);

    assert_eq!(ingest.state(Device::RightFoot as u8, 3), SlotState::Live);
    assert_eq!(ingest.stats().malformed, 1);
}

#[test]
fn every_source_heard_from_is_listed_in_order() {
    let mut ingest = Ingest::new(200 * MS);
    let mut b = packet(Device::Waist, true).encode();
    b[4] = 200;
    ingest.receive(&b, 5);
    ingest.receive(&packet(Device::Chest, false).encode(), 6);
    let all = ingest.all(7);
    let seen: Vec<(u8, SlotState)> = all.iter().map(|(src, st, _)| (*src, *st)).collect();
    assert_eq!(seen, vec![(3, SlotState::NotTracking), (200, SlotState::Live)]);
    assert_eq!(ingest.sample(200).unwrap().age(105), 100);
}

/// From pucks that stamp their roles, a byte that names none makes no packet.
#[test]
fn a_byte_without_a_role_is_no_packet() {
    let mut ingest = Ingest::new(200 * MS);
    let mut b = packet(Device::Waist, true).encode();
    b[4] = 11;
    ingest.receive_role(&b, 5);
    assert_eq!((ingest.stats().received, ingest.stats().malformed), (0, 1));
    assert!(ingest.sample(11).is_none());
    b[4] = 10;
    ingest.receive_role(&b, 6);
    assert_eq!((ingest.stats().received, ingest.stats().malformed), (1, 1));
    assert_eq!(ingest.state(10, 7), SlotState::Live);
}
