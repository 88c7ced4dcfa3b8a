use insight_map_loader::book::Book;
use insight_map_loader::config::{set_puck_device, BridgeEntry};
use insight_map_loader::ieee::Single;
use insight_map_loader::slam::config::{
    build_transforms, Config, MapTransform, Placement, Places, PuckCfg,
};
use insight_map_loader::Device;

fn single(x: f32) -> Single {
    Single { bits: x.to_bits() }
}

fn triple(t: [f32; 3]) -> [Single; 3] {
    [single(t[0]), single(t[1]), single(t[2])]
}

fn entry(yaw_deg: f32, t: [f32; 3]) -> BridgeEntry {
    BridgeEntry {
        yaw_deg: single(yaw_deg),
        t: triple(t),
        yaw_spread_deg: single(0.0),
        unix_time: 0,
    }
}

fn text_of(v: &serde_json::Value) -> Option<String> {
    v.as_str().map(|s| s.to_string())
}

fn read(text: &str) -> Config {
    let v: serde_json::Value = serde_json::from_str(text).unwrap();
    let pucks = v["pucks"]
        .as_array()
        .unwrap()
        .iter()
        .map(|p| PuckCfg {
            ip: text_of(&p["ip"]).unwrap(),
            device: p["device"].as_u64().unwrap() as u8,
            reference: p["reference"].as_bool().unwrap_or(false),
            role: text_of(&p["role"]),
        })
        .collect();
    Config::with_defaults(
        Places {
            listen: text_of(&v["listen"]),
            out: text_of(&v["out"]),
            align: text_of(&v["align"]),
            transforms: text_of(&v["transforms"]),
            map: text_of(&v["map"]),
            bridge: text_of(&v["bridge"]),
        },
        text_of(&v["host"]).unwrap(),
        v["auto_realign"].as_bool().unwrap_or(false),
        v["realign_secs"].as_u64().map(|n| n as u32),
        v["colocated"].as_bool().unwrap_or(false),
        pucks,
    )
}

fn cfg_json(roles: &str) -> Config {
    read(&format!(
        r#"{{"host":"h","listen":"0.0.0.0:1","out":"127.0.0.1:2",
             "align":"a","bridge":"b","pucks":[{roles}]}}"#
    ))
}

fn colocated_cfg(roles: &str) -> Config {
    read(&format!(
        r#"{{"host":"h","listen":"0.0.0.0:1","out":"127.0.0.1:2",
             "align":"a","bridge":"b","colocated":true,"pucks":[{roles}]}}"#
    ))
}

#[test]
fn hip_emits_identity_without_a_store_entry() {
    let cfg = cfg_json(
        r#"{"ip":"1.1.1.1","device":0,"role":"hip"},
           {"ip":"2.2.2.2","device":1,"role":"ankle"}"#,
    );
    assert_eq!(cfg.hip().unwrap().ip, "1.1.1.1");

    let mut bridges = Book::new();
    for ip in ["1.1.1.1", "2.2.2.2"] {
        bridges.insert(ip, entry(0.0, [0.0; 3]));
    }
    // No map transforms at all: the hip still comes out, the ankle does not (it
    // has nothing to place it in the hip's frame).
    let out = build_transforms(&cfg, &Book::new(), &bridges);
    assert!(out.contains_key(&Device::from_u8(0).unwrap().id()));
    assert!(!out.contains_key(&Device::from_u8(1).unwrap().id()));
    assert_eq!(out[&0], Placement::Bridged(entry(0.0, [0.0; 3])));
}

#[test]
fn legacy_reference_flag_still_selects_the_hip() {
    let cfg = cfg_json(r#"{"ip":"9.9.9.9","device":0,"reference":true}"#);
    assert_eq!(cfg.hip().unwrap().ip, "9.9.9.9");
}

#[test]
fn the_hip_is_the_marked_puck_then_the_reference_then_the_first() {
    let cfg = cfg_json(
        r#"{"ip":"a","device":0},{"ip":"b","device":1,"reference":true},
           {"ip":"c","device":2,"role":"hip"}"#,
    );
    assert_eq!(cfg.hip().unwrap().ip, "c");
    let cfg = cfg_json(r#"{"ip":"a","device":0},{"ip":"b","device":1,"reference":true}"#);
    assert_eq!(cfg.hip().unwrap().ip, "b");
    let cfg = cfg_json(r#"{"ip":"a","device":0},{"ip":"b","device":1}"#);
    assert_eq!(cfg.hip().unwrap().ip, "a");
    assert!(cfg_json("").hip().is_none());
}

/// The puck that stands for the hip is placed by its bridge though nothing is stored
/// for it, however the roster names it; the others are not.
#[test]
fn the_shared_frame_is_placed_without_a_store_entry() {
    let mut bridges = Book::new();
    for ip in ["a", "b"] {
        bridges.insert(ip, entry(3.0, [1.0; 3]));
    }
    let placed = |roster: &str| build_transforms(&cfg_json(roster), &Book::new(), &bridges);
    let out = placed(r#"{"ip":"a","device":0},{"ip":"b","device":1,"reference":true}"#);
    assert_eq!(out.into_iter().collect::<Vec<_>>(), vec![(1, Placement::Bridged(entry(3.0, [1.0; 3])))]);
    let out = placed(r#"{"ip":"a","device":0},{"ip":"b","device":1}"#);
    assert_eq!(out.into_iter().collect::<Vec<_>>(), vec![(0, Placement::Bridged(entry(3.0, [1.0; 3])))]);
    let out = placed(r#"{"ip":"a","device":0},{"ip":"b","device":1,"role":"hip"}"#);
    assert_eq!(out.keys().copied().collect::<Vec<u8>>(), vec![1]);
    assert!(placed(r#"{"ip":"c","device":0}"#).is_empty(), "not without a bridge");
}

#[test]
fn colocated_ignores_stored_map_transforms_and_emits_every_puck() {
    let cfg = colocated_cfg(
        r#"{"ip":"1.1.1.1","device":0,"role":"hip"},
           {"ip":"2.2.2.2","device":1,"role":"ankle"}"#,
    );
    let mut bridges = Book::new();
    for ip in ["1.1.1.1", "2.2.2.2"] {
        bridges.insert(ip, entry(0.0, [0.0; 3]));
    }
    // A stale stored transform must not leak into the output: with a shared map
    // the frame is already right, so applying this would break it.
    let mut map_t = Book::new();
    map_t.insert(
        "2.2.2.2",
        MapTransform { yaw_deg: single(90.0), t: triple([5.0, 0.0, -3.0]), frame: None, unix_time: 1 },
    );

    let out = build_transforms(&cfg, &map_t, &bridges);
    // Both pucks present, and the ankle's 90 deg / 5 m entry ignored.
    assert_eq!(out.len(), 2);
    let ankle = out[&Device::from_u8(1).unwrap().id()];
    assert_eq!(
        ankle,
        Placement::Bridged(entry(0.0, [0.0; 3])),
        "stored transform leaked into colocated output"
    );
}

#[test]
fn colocated_still_applies_the_local_to_world_bridge() {
    // The stream is in the tracker's LOCAL frame, so the bridge is still required
    // even when there is no map transform.
    let cfg = colocated_cfg(r#"{"ip":"1.1.1.1","device":0,"role":"hip"}"#);
    let mut bridges = Book::new();
    bridges.insert("1.1.1.1", entry(30.0, [1.0, 0.0, 2.0]));
    let out = build_transforms(&cfg, &Book::new(), &bridges);
    match out[&Device::from_u8(0).unwrap().id()] {
        Placement::Bridged(b) => {
            let yaw = f32::from_bits(b.yaw_deg.bits).to_radians();
            assert!((yaw - 30f32.to_radians()).abs() < 1e-6);
            assert_eq!(b.t, triple([1.0, 0.0, 2.0]));
        }
        other => panic!("{other:?}"),
    }
}

#[test]
fn a_stored_transform_is_composed_unless_it_contains_the_bridge() {
    let cfg = cfg_json(
        r#"{"ip":"1.1.1.1","device":0},{"ip":"2.2.2.2","device":1},{"ip":"3.3.3.3","device":2}"#,
    );
    let mut bridges = Book::new();
    bridges.insert("1.1.1.1", entry(1.0, [1.0; 3]));
    bridges.insert("2.2.2.2", entry(2.0, [2.0; 3]));
    let mut map_t = Book::new();
    for (ip, frame) in [("1.1.1.1", None), ("2.2.2.2", Some("local")), ("3.3.3.3", None)] {
        map_t.insert(
            ip,
            MapTransform {
                yaw_deg: single(90.0),
                t: triple([5.0, 0.0, -3.0]),
                frame: frame.map(|s: &str| s.to_string()),
                unix_time: 1,
            },
        );
    }
    let out = build_transforms(&cfg, &map_t, &bridges);
    let t = triple([5.0, 0.0, -3.0]);
    assert_eq!(out[&0], Placement::Composed(single(90.0), t, entry(1.0, [1.0; 3])));
    assert_eq!(out[&1], Placement::Stored(single(90.0), t));
    assert!(!out.contains_key(&2), "no bridge, no output");
}

const SAMPLE: &str = r#"{
  "host": "192.168.1.2",
  "listen": "0.0.0.0:5180",
  "pucks": [
    { "ip": "1.1.1.1", "device": 0, "role": "hip", "note": "hand-written" },
    { "ip": "2.2.2.2", "device": 1 }
  ],
  "colocated": true,
  "some_future_key": { "nested": [1, 2, 3] }
}"#;

#[test]
fn config_set_puck_device_preserves_unknown_keys_and_order() {
    let out = set_puck_device("preserve.json", SAMPLE, "2.2.2.2", 6).unwrap();

    assert!(out.contains("some_future_key"), "unknown top-level key was dropped");
    assert!(out.contains("hand-written"), "unknown per-puck key was dropped");

    let host = out.find("\"host\"").unwrap();
    let listen = out.find("\"listen\"").unwrap();
    let pucks = out.find("\"pucks\"").unwrap();
    assert!(host < listen && listen < pucks, "key order changed: {out}");

    let cfg = Config::load("preserve.json", Ok(read(&out))).unwrap();
    assert_eq!(cfg.pucks[1].device, 6);
    assert_eq!(cfg.pucks[0].device, 0, "the other puck must be untouched");
    assert!(cfg.pucks[0].is_hip(), "alignment role must survive a device change");
}

#[test]
fn config_set_puck_device_refuses_a_duplicate() {
    let err = set_puck_device("dup.json", SAMPLE, "2.2.2.2", 0).unwrap_err();
    assert!(err.contains("already assigned"), "{err}");
    assert_eq!(Config::load("dup.json", Ok(read(SAMPLE))).unwrap().pucks[1].device, 1);
}

#[test]
fn config_set_puck_device_refuses_an_unknown_puck() {
    assert!(
        set_puck_device("unknown.json", SAMPLE, "9.9.9.9", 4).is_err(),
        "must not invent a puck"
    );
}

#[test]
fn config_load_rejects_duplicate_devices() {
    let cfg = read(
        r#"{"host":"h","pucks":[{"ip":"1.1.1.1","device":2},{"ip":"2.2.2.2","device":2}]}"#,
    );
    let err = match Config::load("loaddup.json", Ok(cfg)) {
        Err(e) => e,
        Ok(_) => panic!("duplicate device ids must be rejected"),
    };
    assert!(err.contains("both use device 2"), "{err}");
}

#[test]
fn places_left_out_are_filled_in() {
    let cfg = read(r#"{"host":"h","pucks":[]}"#);
    assert_eq!(cfg.listen, "0.0.0.0:5180");
    assert_eq!(cfg.out, "127.0.0.1:5181");
    assert_eq!(cfg.align, "align_result.json");
    assert_eq!(cfg.transforms, "transforms.json");
    assert_eq!(cfg.map, "map");
    assert_eq!(cfg.bridge, "bridge.json");
    assert_eq!(cfg.realign_secs, 25);
    assert!(!cfg.auto_realign && !cfg.colocated);
    assert_eq!(Config::load("p", Err("gone".into())).unwrap_err(), "p: gone");
}

/// Where no puck is marked as the hip, the one that stands for it holds the frame.
#[test]
fn the_frame_is_held_by_the_hip_or_what_stands_for_it() {
    let marked = cfg_json(
        r#"{"ip":"1.1.1.1","device":0},{"ip":"2.2.2.2","device":1,"role":"hip"}"#,
    );
    assert_eq!(marked.hips(), vec![false, true]);
    assert_eq!(marked.ankles(), vec!["1.1.1.1".to_string()]);
    let legacy = cfg_json(
        r#"{"ip":"1.1.1.1","device":0},{"ip":"2.2.2.2","device":1,"reference":true}"#,
    );
    assert_eq!(legacy.hips(), vec![false, true]);
    let first = cfg_json(r#"{"ip":"1.1.1.1","device":0},{"ip":"2.2.2.2","device":1}"#);
    assert_eq!(first.hips(), vec![true, false]);
    assert_eq!(first.ankles(), vec!["2.2.2.2".to_string()]);
}
