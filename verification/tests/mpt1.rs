use insight_map_loader::ieee::Single;
use insight_map_loader::mpt1::{all_devices, DecodeError, Packet, Pose, SourcePacket, MAGIC, MAX_DEVICES};
use insight_map_loader::Device;

#[test]
fn every_role_round_trips_through_its_id() {
    let all = all_devices();
    for (i, d) in all.iter().enumerate() {
        assert_eq!(Device::from_u8(i as u8), Some(*d));
        assert_eq!(*d as u8, i as u8, "{} must keep id {i}", d.label());
    }
    assert_eq!(all.len(), MAX_DEVICES);
    // Serials in the SteamVR driver are derived from these; a duplicate would
    // silently collapse two roles onto one tracker.
    let mut labels: Vec<&str> = all.iter().map(|d| d.label()).collect();
    labels.sort_unstable();
    let n = labels.len();
    labels.dedup();
    assert_eq!(labels.len(), n, "role labels must be unique");
}

fn single(x: f32) -> Single {
    Single { bits: x.to_bits() }
}

fn sample() -> Packet {
    Packet {
        device: Device::LeftFoot,
        valid: true,
        battery_pct: 77,
        charging: true,
        t_ns: 0x0123_4567_89AB_CDEF,
        pose: Pose {
            p: [single(1.5), single(-2.25), single(3.125)],
            q: [single(0.1), single(0.2), single(0.3), single(0.9273618)],
        },
        vel: [single(0.5), single(-0.25), single(0.125)],
        angvel: [single(-1.0), single(2.0), single(-3.0)],
    }
}

fn f32_at(b: &[u8], i: usize) -> f32 {
    f32::from_le_bytes([b[i], b[i + 1], b[i + 2], b[i + 3]])
}

#[test]
fn round_trip() {
    let p = sample();
    assert_eq!(Packet::decode(&p.encode()).unwrap(), p);
}

#[test]
fn layout_is_the_documented_one() {
    let b = sample().encode();
    assert_eq!(b.len(), 68);
    assert_eq!(u32::from_le_bytes([b[0], b[1], b[2], b[3]]), MAGIC);
    assert_eq!(b[4], 1); // device
    assert_eq!(b[5], 1); // valid
    // The quaternion goes out w-first even though Pose stores w last.
    assert_eq!(f32_at(&b, 28), 0.9273618);
    assert_eq!(f32_at(&b, 32), 0.1);
}

#[test]
fn rejects_junk() {
    assert_eq!(Packet::decode(&[0u8; 12]), Err(DecodeError::WrongLength(12)));

    let mut b = sample().encode();
    b[0] ^= 0xFF;
    assert!(matches!(Packet::decode(&b), Err(DecodeError::BadMagic(_))));

    // Expressed against MAX_DEVICES rather than a literal: role ids are
    // append-only.
    let bad = MAX_DEVICES as u8;
    let mut b = sample().encode();
    b[4] = bad;
    assert_eq!(Packet::decode(&b), Err(DecodeError::BadDevice(bad)));

    // ...and the last valid id must still decode.
    let mut b = sample().encode();
    b[4] = MAX_DEVICES as u8 - 1;
    assert!(Packet::decode(&b).is_ok(), "the highest role id must be accepted");
}

#[test]
fn decode_errors_read_as_sentences() {
    assert_eq!(DecodeError::WrongLength(12).message(), "expected 68 bytes, got 12");
    assert_eq!(Packet::decode(&[0u8; 12]).unwrap_err().message(), "expected 68 bytes, got 12");
}

#[test]
fn a_source_packet_keeps_a_byte_that_names_no_role() {
    let mut b = sample().encode();
    b[4] = 200;
    let p = SourcePacket::decode(&b).unwrap();
    assert_eq!(p.src, 200);
    assert_eq!(p.encode(), b);
    assert_eq!(p.for_device(Device::Chest).device, Device::Chest);
}
