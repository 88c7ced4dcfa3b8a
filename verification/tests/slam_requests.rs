use insight_map_loader::ieee::Single;
use insight_map_loader::slam::config::PuckCfg;
use insight_map_loader::slam::jump::{frame_jumped, hip_jump_notice, jump_notice};
use insight_map_loader::slam::requests::{LocKind, LocState, LOCALIZE_COOLDOWN};
use insight_map_loader::service::notice::{Notice, Piece};

fn words(n: &Notice) -> String {
    n.pieces
        .iter()
        .map(|p| match p {
            Piece::Words(s) => s.clone(),
            Piece::Plain(_, places) => format!("<{places}>"),
            Piece::Signed(_, places) => format!("<+{places}>"),
        })
        .collect()
}

fn puck(ip: &str, hip: bool) -> PuckCfg {
    PuckCfg {
        ip: ip.into(),
        device: 0,
        reference: false,
        role: if hip { Some("hip".into()) } else { None },
    }
}

fn open(hip: &str, colocated: bool) -> LocState {
    let mut s = LocState::new(Some(hip.into()), colocated);
    s.start();
    s
}

#[test]
fn the_hip_is_never_localized() {
    let mut s = open("hip", false);
    assert!(!s.request_localize("hip", true, true, 0));
    assert!(s.request_kind("hip", false, false, LocKind::Fold, 0));
    assert!(!s.request_verify("hip", 0), "one request at a time");
    s.done("hip");
    assert!(s.request_verify("hip", 0));
}

#[test]
fn pucks_that_share_a_map_are_never_localized() {
    let mut s = open("hip", true);
    assert!(!s.request_localize("ankle", true, true, 0));
    assert!(s.request_verify("ankle", 0));
}

#[test]
fn a_puck_is_left_alone_after_an_attempt_unless_the_operator_insists() {
    let mut s = open("hip", false);
    assert!(s.request_localize("a", false, false, 100));
    assert!(s.busy("a"));
    assert_eq!(s.localizing(), vec!["a".to_string()]);
    let q = s.take().unwrap();
    assert_eq!((q.ip.as_str(), q.coldstart, q.kind), ("a", false, LocKind::Localize));
    assert!(s.take().is_none());
    s.done("a");
    assert!(!s.busy("a"));
    assert!(!s.request_localize("a", false, false, 100 + LOCALIZE_COOLDOWN - 1));
    assert!(s.request_localize("a", true, true, 101));
    s.done("a");
    assert!(s.request_localize("a", false, false, 101 + LOCALIZE_COOLDOWN));
}

#[test]
fn nothing_is_taken_before_the_start() {
    let mut s = LocState::new(None, false);
    assert!(!s.request_localize("a", false, true, 0));
    s.start();
    assert!(s.request_localize("a", false, true, 0));
}

#[test]
fn a_jump_of_the_hip_re_joins_every_other_puck() {
    let pucks = vec![puck("hip", true), puck("a", false), puck("b", false)];
    let mut s = open("hip", false);
    assert!(frame_jumped(&mut s, &pucks, "hip", 5));
    let mut seen = Vec::new();
    while let Some(q) = s.take() {
        seen.push((q.ip, q.coldstart, q.kind));
    }
    assert_eq!(
        seen,
        vec![
            ("hip".to_string(), false, LocKind::Fold),
            ("a".to_string(), true, LocKind::Localize),
            ("b".to_string(), true, LocKind::Localize),
        ]
    );
}

#[test]
fn a_jump_of_another_puck_re_joins_that_puck() {
    let pucks = vec![puck("hip", true), puck("a", false), puck("b", false)];
    let mut s = open("hip", false);
    assert!(!frame_jumped(&mut s, &pucks, "b", 5));
    let q = s.take().unwrap();
    assert_eq!((q.ip.as_str(), q.coldstart, q.kind), ("b", true, LocKind::Localize));
    assert!(s.take().is_none());

    let z = Single { bits: 0 };
    assert_eq!(
        words(&jump_notice("b", z, z, true)),
        "b Insight frame JUMPED (<2> m / <1>°) — its stored alignment no longer applies, output \
         held; re-bridging and re-joining on next movement"
    );
    assert_eq!(
        words(&hip_jump_notice("hip", z, z)),
        "hip (hip) Insight frame JUMPED (<2> m / <1>°) — the shared frame moved; re-bridging, \
         folding the map, and re-joining every ankle"
    );
}
