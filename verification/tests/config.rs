use insight_map_loader::book::Book;
use insight_map_loader::config::{
    build_transforms_for, listen_port, next_free_id, set_puck_device, set_puck_id, source_to_role,
    with_roles, BridgeEntry, Config, PuckCfg,
};
use insight_map_loader::ieee::Single;
use insight_map_loader::Device;

fn puck(ip: &str, device: u8, id: Option<u8>) -> PuckCfg {
    PuckCfg { ip: ip.into(), device, id }
}

#[test]
fn a_provisioned_puck_is_keyed_by_its_id_not_its_role() {
    let m = source_to_role(&[puck("a", 3, Some(200))]);
    assert_eq!(m.get(&200), Some(&Device::Chest));
    // The role number must not also resolve: only the id is on the wire, and
    // accepting the role too would let a stale puck claim the slot.
    assert_eq!(m.get(&3), None);
}

#[test]
fn pucks_without_a_known_role_are_left_out() {
    let all = [puck("a", 10, None), puck("b", 11, Some(200)), puck("c", 0, None)];
    let left: Vec<String> = with_roles(&all).into_iter().map(|p| p.ip).collect();
    assert_eq!(left, ["a", "c"]);
}

#[test]
fn a_legacy_puck_is_keyed_by_its_role() {
    let m = source_to_role(&[puck("a", 3, None)]);
    assert_eq!(m.get(&3), Some(&Device::Chest));
}

#[test]
fn reassigning_a_role_does_not_change_what_the_puck_sends() {
    // Same id, different role, no device round trip.
    let before = source_to_role(&[puck("a", 0, Some(42))]);
    let after = source_to_role(&[puck("a", 5, Some(42))]);
    assert_eq!(before.get(&42), Some(&Device::Waist));
    assert_eq!(after.get(&42), Some(&Device::RightKnee));
    assert_eq!(before.keys().collect::<Vec<_>>(), after.keys().collect::<Vec<_>>());
}

#[test]
fn an_unknown_source_resolves_to_nothing() {
    let m = source_to_role(&[puck("a", 0, Some(1))]);
    assert_eq!(m.get(&99), None, "an unclaimed id must not be adopted");
}

fn single(x: f32) -> Single {
    Single { bits: x.to_bits() }
}

fn bridge(yaw_deg: f32, t: [f32; 3]) -> BridgeEntry {
    BridgeEntry {
        yaw_deg: single(yaw_deg),
        t: [single(t[0]), single(t[1]), single(t[2])],
        yaw_spread_deg: single(0.0),
        unix_time: 0,
    }
}

/// The pucks of a configuration file's text.
fn pucks_of(text: &str) -> Vec<PuckCfg> {
    let v: serde_json::Value = serde_json::from_str(text).unwrap();
    v["pucks"]
        .as_array()
        .unwrap()
        .iter()
        .map(|p| PuckCfg {
            ip: p["ip"].as_str().unwrap().to_string(),
            device: p["device"].as_u64().unwrap() as u8,
            id: p["id"].as_u64().map(|n| n as u8),
        })
        .collect()
}

fn cfg_of(pucks: &str) -> Config {
    let text = format!(
        r#"{{"host":"h","listen":"0.0.0.0:1","out":"127.0.0.1:2","bridge":"b","pucks":[{pucks}]}}"#
    );
    Config::with_defaults(
        Some("0.0.0.0:1".into()),
        Some("127.0.0.1:2".into()),
        Some("b".into()),
        "h".into(),
        pucks_of(&text),
    )
}

#[test]
fn output_is_the_bridge_alone() {
    let cfg = cfg_of(r#"{"ip":"1.1.1.1","device":0}"#);
    let mut bridges = Book::new();
    bridges.insert("1.1.1.1", bridge(30.0, [1.0, 0.0, 2.0]));
    let out = build_transforms_for(&cfg.pucks, &bridges);
    let f = out[&Device::from_u8(0).unwrap().id()];
    assert!((f32::from_bits(f.yaw_deg.bits).to_radians() - 30f32.to_radians()).abs() < 1e-6);
    assert_eq!(f.t, [single(1.0), single(0.0), single(2.0)]);
}

#[test]
fn a_puck_without_a_bridge_is_omitted() {
    // Emitting it un-bridged would place it in a frame nothing shares. A missing
    // limb beats a wrong one.
    let cfg = cfg_of(r#"{"ip":"1.1.1.1","device":0},{"ip":"2.2.2.2","device":1}"#);
    let mut bridges = Book::new();
    bridges.insert("1.1.1.1", bridge(0.0, [0.0; 3]));
    let out = build_transforms_for(&cfg.pucks, &bridges);
    assert!(out.contains_key(&Device::from_u8(0).unwrap().id()));
    assert!(!out.contains_key(&Device::from_u8(1).unwrap().id()));
}

#[test]
fn an_unknown_role_id_is_omitted_not_panicked() {
    let cfg = cfg_of(r#"{"ip":"1.1.1.1","device":99}"#);
    let mut bridges = Book::new();
    bridges.insert("1.1.1.1", bridge(0.0, [0.0; 3]));
    assert!(build_transforms_for(&cfg.pucks, &bridges).is_empty());
}

const SAMPLE: &str = r#"{
  "host": "192.168.1.2",
  "listen": "0.0.0.0:5180",
  "pucks": [
    { "ip": "1.1.1.1", "device": 0, "note": "hand-written" },
    { "ip": "2.2.2.2", "device": 1 }
  ],
  "colocated": true,
  "some_future_key": { "nested": [1, 2, 3] }
}"#;

#[test]
fn set_puck_device_preserves_unknown_keys_and_order() {
    let out = set_puck_device("preserve.json", SAMPLE, "2.2.2.2", 6).unwrap();

    // The key a human added, and the one the library does not model, both
    // survive: that is the whole reason for the edit in place.
    assert!(out.contains("some_future_key"), "unknown top-level key was dropped");
    assert!(out.contains("hand-written"), "unknown per-puck key was dropped");

    // Order is preserved, so a hand-maintained file is not visibly scrambled.
    let host = out.find("\"host\"").unwrap();
    let listen = out.find("\"listen\"").unwrap();
    let pucks = out.find("\"pucks\"").unwrap();
    assert!(host < listen && listen < pucks, "key order changed: {out}");

    let read = pucks_of(&out);
    assert_eq!(read[1].device, 6);
    assert_eq!(read[0].device, 0, "the other puck must be untouched");
}

#[test]
fn set_puck_device_refuses_a_duplicate() {
    let err = set_puck_device("dup.json", SAMPLE, "2.2.2.2", 0).unwrap_err();
    assert!(err.contains("already assigned"), "{err}");
    assert_eq!(err, "device 0 is already assigned to 1.1.1.1");
    // Nothing is written where it is refused.
    assert_eq!(pucks_of(SAMPLE)[1].device, 1);
}

#[test]
fn set_puck_device_refuses_an_unknown_puck() {
    let err = set_puck_device("unknown.json", SAMPLE, "9.9.9.9", 4);
    assert!(err.is_err(), "must not invent a puck");
    assert_eq!(err.unwrap_err(), "unknown.json: no puck with ip 9.9.9.9");
}

#[test]
fn set_puck_device_refuses_a_file_without_pucks() {
    let err = set_puck_device("c.json", "{}", "9.9.9.9", 4).unwrap_err();
    assert_eq!(err, "c.json: no \"pucks\" array");
    let err = set_puck_device("c.json", "{", "9.9.9.9", 4).unwrap_err();
    assert!(err.starts_with("c.json: "), "{err}");
}

#[test]
fn load_rejects_duplicate_devices() {
    let text = r#"{"host":"h","pucks":[{"ip":"1.1.1.1","device":2},{"ip":"2.2.2.2","device":2}]}"#;
    let cfg = Config::with_defaults(None, None, None, "h".into(), pucks_of(text));
    let err = match Config::load("loaddup.json", Ok(cfg)) {
        Err(e) => e,
        Ok(_) => panic!("duplicate device ids must be rejected"),
    };
    assert!(err.contains("both use device 2"), "{err}");
    assert_eq!(
        err,
        "loaddup.json: pucks 1.1.1.1 and 2.2.2.2 both use device 2 -- ids must be unique, they \
         select the SteamVR tracker"
    );
}

#[test]
fn what_the_file_leaves_out_is_filled_in() {
    let cfg = Config::with_defaults(None, None, None, "h".into(), Vec::new());
    assert_eq!(cfg.listen, "0.0.0.0:5180");
    assert_eq!(cfg.out, "127.0.0.1:5181");
    assert_eq!(cfg.bridge, "bridge.json");
    let err = Config::load("x.json", Err("no such file".into())).unwrap_err();
    assert_eq!(err, "x.json: no such file");
    assert!(Config::load("x.json", Ok(cfg)).is_ok());
}

#[test]
fn the_port_is_what_the_address_ends_in() {
    assert_eq!(listen_port("0.0.0.0:5180"), 5180);
    assert_eq!(listen_port("0.0.0.0:6000"), 6000);
    assert_eq!(listen_port("7000"), 7000);
    assert_eq!(listen_port("0.0.0.0"), 5180);
    assert_eq!(listen_port("0.0.0.0:70000"), 5180);
}

#[test]
fn ids_are_handed_out_from_a_hundred_on() {
    assert_eq!(next_free_id(&[]), Some(100));
    assert_eq!(next_free_id(&[puck("a", 0, Some(100)), puck("b", 1, Some(102))]), Some(101));
    let all: Vec<PuckCfg> = (100..=255).map(|i| puck("x", 0, Some(i))).collect();
    assert_eq!(next_free_id(&all), None);

    let out = set_puck_id("c.json", SAMPLE, "1.1.1.1", 100).unwrap();
    assert_eq!(pucks_of(&out)[0].id, Some(100));
    assert!(out.ends_with("}\n"));
    let err = set_puck_id("c.json", &out, "2.2.2.2", 100).unwrap_err();
    assert!(err.contains("1.1.1.1"), "{err}");
}
