use insight_map_loader::book::Book;
use insight_map_loader::ieee::Double;
use insight_map_loader::service::notice::{Notice, Piece};
use insight_map_loader::slam::mapd::{
    peers, refuted, Errand, ErrandReply, ErrandStage, Refutation, Spawned, VERDICT_SPAN,
};
use insight_map_loader::slam::requests::{LocKind, LocReq};
use insight_map_loader::slam::store::Anchor;
use serde_json::Value;

fn double(x: f64) -> Double {
    Double { bits: x.to_bits() }
}

fn words(n: &Notice) -> String {
    n.pieces
        .iter()
        .map(|p| match p {
            Piece::Words(s) => s.clone(),
            Piece::Plain(_, places) => format!("<{places}>"),
            Piece::Signed(_, places) => format!("<+{places}>"),
        })
        .collect()
}

fn errand(kind: LocKind, mapped: bool, alive: bool) -> Errand {
    let req = LocReq { ip: "10.0.0.7".into(), coldstart: false, kind };
    Errand::start(req, "hip.map".into(), vec!["10.0.0.8".into()], mapped, alive)
}

fn grabbed() -> ErrandReply {
    ErrandReply::Grabbed(Some(b"{\"ok\": true}\n".to_vec()))
}

fn answered(s: &str) -> ErrandReply {
    ErrandReply::Answered(Some(s.into()))
}

fn line(e: &Errand) -> Value {
    serde_json::from_str(&e.line).unwrap()
}

#[test]
fn the_daemon_is_started_first() {
    let mut e = errand(LocKind::Verify, true, false);
    assert_eq!(e.stage, ErrandStage::Spawn);
    let f = e.hear(ErrandReply::Spawned(Spawned::Started));
    assert_eq!(words(&f.notices[0]), "map daemon started");
    assert_eq!(e.stage, ErrandStage::Grab);

    let mut e = errand(LocKind::Localize, true, false);
    let f = e.hear(ErrandReply::Spawned(Spawned::Failed("no such file".into())));
    let told: Vec<String> = f.notices.iter().map(words).collect();
    assert_eq!(
        told,
        vec![
            "cannot start q1mapd: no such file",
            "no map yet at hip.map — it founds itself when the hip moves",
        ]
    );
    assert_eq!(e.stage, ErrandStage::Over);
    let mut e = errand(LocKind::Fold, true, false);
    let f = e.hear(ErrandReply::Spawned(Spawned::NoMap));
    assert!(f.notices.is_empty());
    assert_eq!(errand(LocKind::Fold, false, false).stage, ErrandStage::Grab);
}

#[test]
fn a_verification_asks_the_map() {
    let mut e = errand(LocKind::Verify, true, true);
    assert_eq!(e.mode(), "verify");
    assert_eq!(e.out(), "/tmp/q2slam_verify_10_0_0_7");
    e.hear(grabbed());
    assert_eq!(e.stage, ErrandStage::Verify);
    assert_eq!(
        e.line,
        "{\"cmd\":\"verify\",\"puck\":\"10.0.0.7\",\"dataset\":\"/tmp/q2slam_verify_10_0_0_7\"}"
    );
    let f = e.hear(answered("{\"verdict\":\"confirmed\",\"matches\":120,\"median_deg\":0.4}"));
    assert_eq!(
        words(&f.notices[0]),
        "10.0.0.7 alignment CONFIRMED against the map (120 matches, <1>° median)"
    );
    assert!(!f.drift && !f.clear);
    assert_eq!(e.stage, ErrandStage::Over);
}

#[test]
fn a_grab_that_failed_ends_the_errand() {
    for bytes in [None, Some(b"{\"ok\": false}".to_vec()), Some(b"{}".to_vec()), Some(vec![0xff])] {
        let mut e = errand(LocKind::Verify, true, true);
        let f = e.hear(ErrandReply::Grabbed(bytes));
        assert_eq!(
            words(&f.notices[0]),
            "10.0.0.7: verification grab failed (snapshots unavailable)"
        );
        assert_eq!(e.stage, ErrandStage::Over);
    }
    let mut e = errand(LocKind::Localize, true, true);
    let f = e.hear(ErrandReply::Grabbed(None));
    assert_eq!(
        words(&f.notices[0]),
        "10.0.0.7: grab yielded too little movement — will retry when walking"
    );
    let mut e = errand(LocKind::Fold, true, true);
    assert!(e.hear(ErrandReply::Grabbed(None)).notices.is_empty());
}

/// A refuted alignment arms a solve, and is told apart from drift of the map.
#[test]
fn a_refutation_is_compared_with_its_peers() {
    let refuted = || {
        let mut e = errand(LocKind::Verify, true, true);
        e.hear(grabbed());
        let f = e.hear(answered("{\"verdict\":\"refuted\",\"median_deg\":4.0}"));
        assert!(f.notices.is_empty());
        assert_eq!(e.stage, ErrandStage::Compare(double(4.0)));
        e
    };
    let f = refuted().hear(ErrandReply::Compared(vec![double(1.4)]));
    assert!(f.drift);
    assert!(words(&f.notices[0]).starts_with("10.0.0.7 off the map by <1>° — SAME offset"));
    let f = refuted().hear(ErrandReply::Compared(vec![double(1.6)]));
    assert!(f.drift);
    assert!(words(&f.notices[0]).starts_with("10.0.0.7 alignment REFUTED by the map (<1>° off)"));

    let mut e = errand(LocKind::Verify, true, true);
    e.hear(grabbed());
    let f = e.hear(answered("{\"verdict\":\"unverifiable\"}"));
    assert!(words(&f.notices[0]).contains("alignment unverifiable from here"));

    let mut verdicts: Book<Refutation> = Book::new();
    verdicts.insert("10.0.0.7", Refutation { median_deg: double(1.0), at: 0 });
    verdicts.insert("10.0.0.8", Refutation { median_deg: double(2.0), at: 0 });
    verdicts.insert("10.0.0.9", Refutation { median_deg: double(3.0), at: 5 });
    assert_eq!(peers(&verdicts, "10.0.0.7", 1), vec![double(2.0), double(3.0)]);
    assert_eq!(peers(&verdicts, "10.0.0.7", VERDICT_SPAN), vec![double(3.0)]);
}

/// A daemon that does not answer, or answers nothing usable, is cleared.
#[test]
fn a_silent_daemon_is_started_anew() {
    for reply in [None, Some("not json".to_string()), Some("{}".to_string())] {
        let mut e = errand(LocKind::Verify, true, true);
        e.hear(grabbed());
        let f = e.hear(ErrandReply::Answered(reply));
        assert!(f.clear);
        assert_eq!(e.stage, ErrandStage::Over);
    }
}

#[test]
fn the_hip_folds_into_its_map() {
    let mut e = errand(LocKind::Fold, true, true);
    assert_eq!(e.mode(), "localize");
    e.hear(grabbed());
    assert_eq!(
        e.line,
        "{\"cmd\":\"fold\",\"dataset\":\"/tmp/q2slam_fold_10_0_0_7\",\"deploy_to\":[\"10.0.0.8\"]}"
    );
    let f = e.hear(answered("{\"ok\":true,\"landmarks\":900,\"grew\":30,\"deployed\":[\"x\"]}"));
    let told = words(&f.notices[0]);
    assert!(told.starts_with("hip map now 900 landmarks (+30 from natural movement);"));
    assert!(told.ends_with("subset refreshed on 1 puck(s)"));
    let mut e = errand(LocKind::Fold, true, true);
    e.hear(grabbed());
    let f = e.hear(answered("{\"ok\":false,\"error\":\"no overlap\"}"));
    assert_eq!(words(&f.notices[0]), "hip map fold failed: no overlap");
}

#[test]
fn a_map_is_founded_where_there_is_none() {
    let mut e = errand(LocKind::Fold, false, false);
    e.hear(grabbed());
    assert_eq!(e.stage, ErrandStage::Found);
    let f = e.hear(ErrandReply::Founded(Some(b"{\"landmarks\": 412}".to_vec())));
    assert!(words(&f.notices[0]).starts_with("hip map FOUNDED from natural movement (412 landmarks)"));
    let mut e = errand(LocKind::Fold, false, false);
    e.hear(grabbed());
    let f = e.hear(ErrandReply::Founded(None));
    assert_eq!(
        words(&f.notices[0]),
        "hip map founding produced nothing usable — retrying on movement"
    );
}

/// A solve starts from what is stored, or cold.
#[test]
fn a_solve_is_seeded_from_the_store() {
    let mut e = errand(LocKind::Localize, true, true);
    e.hear(grabbed());
    assert_eq!(e.stage, ErrandStage::Seed);
    let t = Value::from(vec![Value::from(1), Value::from(2), Value::from(3)]);
    e.hear(ErrandReply::Seed(Some((Value::from(-5), t))));
    let v = line(&e);
    assert_eq!(v["cmd"], "localize");
    assert_eq!(v["coldstart"], false);
    assert_eq!(v["seed"]["yaw_deg"], -5);
    assert_eq!(v["seed"]["t"][2], 3);

    let mut e = errand(LocKind::Localize, true, true);
    e.hear(grabbed());
    e.hear(ErrandReply::Seed(None));
    assert_eq!(line(&e)["coldstart"], true);
    assert!(line(&e)["seed"].is_null());
}

#[test]
fn a_solve_is_taken_unless_the_pair_stream_owns_the_puck() {
    let solving = || {
        let mut e = errand(LocKind::Localize, true, true);
        e.hear(grabbed());
        e.hear(ErrandReply::Seed(None));
        e
    };
    let good = "{\"accepted\":true,\"yaw_deg\":12.5,\"t\":[1.0,2.0,3.0],\"inliers\":800,\
                \"residual_deg\":0.3,\"contribute_ok\":true}";
    let f = solving().hear(ErrandReply::Solved(Some(good.into()), false));
    assert_eq!(
        words(&f.notices[0]),
        "10.0.0.7 localized: yaw <+2>° (800 inliers, <2>° residual)"
    );
    assert_eq!(
        f.push,
        Some(Anchor { yaw_deg: double(12.5), t: [double(1.0), double(2.0), double(3.0)] })
    );
    let f = solving().hear(ErrandReply::Solved(Some(good.into()), true));
    assert!(f.push.is_none());
    assert!(words(&f.notices[0]).ends_with("the pair stream owns this puck — result ignored"));
    let f = solving().hear(ErrandReply::Solved(Some("{\"accepted\":false,\"inliers\":12}".into()), false));
    assert_eq!(
        words(&f.notices[0]),
        "10.0.0.7: localization rejected (12 inliers) — keeping current transform"
    );
    let why = "{\"accepted\":false,\"reject_reason\":\"ambiguous\"}";
    let f = solving().hear(ErrandReply::Solved(Some(why.into()), false));
    assert!(words(&f.notices[0]).contains("rejected (ambiguous)"));
    assert!(solving().hear(ErrandReply::Solved(None, false)).clear);
}

#[test]
fn a_refutation_is_entered_once_per_puck() {
    let mut verdicts = Book::new();
    assert!(refuted(&mut verdicts, "10.0.0.7", double(4.0), 10).is_empty());
    assert_eq!(refuted(&mut verdicts, "10.0.0.8", double(5.0), 20), vec![double(4.0)]);
    assert_eq!(refuted(&mut verdicts, "10.0.0.7", double(6.0), 30), vec![double(5.0)]);
    assert_eq!(refuted(&mut verdicts, "10.0.0.8", double(7.0), 40), vec![double(6.0)]);
    assert_eq!(verdicts.entries.len(), 2);
    let late = 30 + VERDICT_SPAN;
    assert_eq!(refuted(&mut verdicts, "10.0.0.9", double(1.0), late), vec![double(7.0)]);
}
