use insight_map_loader::ieee::Double;
use insight_map_loader::slam::store::{
    apply_feedback, apply_paircal, apply_transform_write, invalidate_transform, load_anchors,
    stored_entry, Solved,
};
use serde_json::Value;

fn value(text: &str) -> Value {
    serde_json::from_str(text).unwrap()
}

fn solved(yaw: f64, t: [f64; 3], inliers: i64) -> Solved {
    Solved {
        yaw_deg: Value::from(yaw),
        t: Value::from(t.iter().map(|x| Value::from(*x)).collect::<Vec<_>>()),
        inliers,
    }
}

fn double(x: f64) -> Double {
    Double { bits: x.to_bits() }
}

const STORE: &str = r#"{
    "1.1.1.1": {"yaw_deg": 0.0, "t": [0.0,0.0,0.0], "role": "hip"},
    "2.2.2.2": {"yaw_deg": -59.9, "t": [1.0,2.0,3.0], "role": "ankle"}
}"#;

/// A jumped puck must vanish from the store while every other puck is left
/// untouched.
#[test]
fn invalidate_drops_only_the_jumped_puck() {
    let out = invalidate_transform(Some(STORE), "2.2.2.2").unwrap();
    let v = value(&out);
    assert!(v.get("2.2.2.2").is_none(), "jumped puck must be dropped");
    assert!(v.get("1.1.1.1").is_some(), "the hip must survive");

    // Dropping an absent puck is a no-op, not a corruption.
    assert!(invalidate_transform(Some(&out), "2.2.2.2").is_none());
    let v2 = value(&out);
    assert!(v2.get("1.1.1.1").is_some());
}

#[test]
fn nothing_is_dropped_from_what_is_no_store() {
    assert!(invalidate_transform(None, "a").is_none());
    assert!(invalidate_transform(Some("[1]"), "a").is_none());
    assert!(invalidate_transform(Some("not a document"), "a").is_none());
}

#[test]
fn a_transform_is_written_and_the_rest_survives() {
    let out = apply_transform_write(
        Some(STORE),
        "2.2.2.2",
        solved(12.5, [0.5, -1.0, 2.0], 700),
        false,
        "host",
        99,
    )
    .unwrap();
    let v = value(&out);
    let e = &v["2.2.2.2"];
    assert_eq!(e["role"], "ankle");
    assert_eq!(e["source"], "host");
    assert_eq!(e["yaw_deg"], 12.5);
    assert_eq!(e["t"], value("[0.5,-1.0,2.0]"));
    assert_eq!(e["inliers"], 700);
    assert_eq!(e["unix_time"], 99);
    assert_eq!(v["1.1.1.1"], value(STORE)["1.1.1.1"]);
}

#[test]
fn feedback_refines_and_never_creates() {
    let out = apply_feedback(Some(STORE), "2.2.2.2", solved(1.0, [0.0; 3], 501), 7).unwrap();
    assert_eq!(value(&out)["2.2.2.2"]["source"], "on-device");
    assert!(apply_feedback(Some(STORE), "3.3.3.3", solved(1.0, [0.0; 3], 501), 7).is_none());
    assert!(apply_feedback(None, "3.3.3.3", solved(1.0, [0.0; 3], 501), 7).is_none());
}

#[test]
fn the_pair_stream_creates_and_marks_its_entry() {
    let out = apply_paircal(None, "3.3.3.3", solved(-4.5, [1.0, 2.0, 3.0], -3), 8).unwrap();
    let v = value(&out);
    let e = &v["3.3.3.3"];
    assert_eq!(e["role"], "ankle");
    assert_eq!(e["source"], "paircal");
    assert_eq!(e["frame"], "local");
    assert_eq!(e["yaw_deg"], -4.5);
    assert_eq!(e["inliers"], -3);
    // An entry that cannot take members is not written.
    assert!(apply_paircal(Some(r#"{"a":1}"#), "a", solved(0.0, [0.0; 3], 1), 8).is_none());
    // A document that is no object takes no entry.
    assert!(apply_paircal(Some("[]"), "a", solved(0.0, [0.0; 3], 1), 8).is_none());
    // An empty entry is filled.
    let out = apply_paircal(Some(r#"{"a":null}"#), "a", solved(0.0, [0.0; 3], 1), 8).unwrap();
    assert_eq!(value(&out)["a"]["frame"], "local");
}

#[test]
fn a_stored_entry_tells_where_it_came_from() {
    let (a, device) = stored_entry(Some(STORE), "2.2.2.2").unwrap();
    assert_eq!(a.yaw_deg, double(-59.9));
    assert_eq!(a.t, [double(1.0), double(2.0), double(3.0)]);
    assert!(!device);

    let out = apply_feedback(Some(STORE), "2.2.2.2", solved(1.0, [0.0; 3], 501), 7).unwrap();
    assert!(stored_entry(Some(&out), "2.2.2.2").unwrap().1);

    assert!(stored_entry(Some(STORE), "9.9.9.9").is_none());
    assert!(stored_entry(None, "2.2.2.2").is_none());
    assert!(stored_entry(Some(r#"{"a":{"yaw_deg":1,"t":[1,2]}}"#), "a").is_none());
    assert!(stored_entry(Some(r#"{"a":{"yaw_deg":"1","t":[1,2,3]}}"#), "a").is_none());
    let (a, _) = stored_entry(Some(r#"{"a":{"yaw_deg":1,"t":[1,"x",3]}}"#), "a").unwrap();
    assert_eq!(a.t, [double(1.0), double(0.0), double(3.0)]);
}

#[test]
fn anchors_are_what_the_host_solved() {
    let store = r#"{
        "a": {"yaw_deg": 1.5, "t": [1, 2, 3]},
        "b": {"yaw_deg": 2.5, "t": [1, 2, 3], "source": "on-device"},
        "c": {"yaw_deg": 3.5},
        "d": {"yaw_deg": 4.5, "t": [0, 0, 0], "source": "paircal"}
    }"#;
    let book = load_anchors(Some(store));
    let keys: Vec<&str> = book.entries.iter().map(|(k, _)| k.as_str()).collect();
    assert_eq!(keys, vec!["a", "d"]);
    assert_eq!(book.get("a").unwrap().yaw_deg, double(1.5));
    assert!(load_anchors(None).entries.is_empty());
    assert!(load_anchors(Some("[]")).entries.is_empty());
}
