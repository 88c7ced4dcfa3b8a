use insight_map_loader::ieee::{Double, Single};
use insight_map_loader::service::notice::{Notice, Piece};
use insight_map_loader::slam::requests::LocKind;
use insight_map_loader::slam::rounds::{
    axis_step, frozen, frozen_notice, yaw_step, Record, Report, Solve, Visit, VisitReply,
    VisitStage, KEPT,
};
use insight_map_loader::slam::store::Anchor;

fn single(x: f32) -> Single {
    Single { bits: x.to_bits() }
}

fn double(x: f64) -> Double {
    Double { bits: x.to_bits() }
}

fn words(n: &Notice) -> String {
    n.pieces
        .iter()
        .map(|p| match p {
            Piece::Words(s) => s.clone(),
            Piece::Plain(_, places) => format!("<{places}>"),
            Piece::Signed(_, places) => format!("<+{places}>"),
        })
        .collect()
}

fn solve(yaw: f64, x: f32, inliers: i64) -> Solve {
    Solve { yaw: double(yaw), t: [single(x), single(0.0), single(0.0)], inliers }
}

fn report(verdict: &str, s: Solve, stamp: i64) -> VisitReply {
    VisitReply::Report(Some(Report { verdict: verdict.into(), solve: s, stamp }))
}

fn at(hip: bool, stage: VisitStage) -> Visit {
    let mut v = Visit::start("a".into(), hip);
    v.stage = stage;
    v
}

fn anchor() -> Anchor {
    Anchor { yaw_deg: double(10.0), t: [double(0.0), double(0.0), double(0.0)] }
}

#[test]
fn a_visit_asks_for_one_thing_after_another() {
    let mut rec = Record::new(None);
    let mut v = Visit::start("a".into(), false);
    assert!(v.want_localize());
    v.hear(&mut rec, &VisitReply::Status { reachable: true, tracking_valid: false });
    assert_eq!(v.stage, VisitStage::Sync(false));
    let o = v.hear(&mut rec, &VisitReply::Synced(true));
    assert_eq!(
        words(&o.notice.unwrap()),
        "a was 0DOF after reboot — synthetic-TE module reloaded"
    );
    v.hear(&mut rec, &VisitReply::Running(true));
    v.hear(&mut rec, &VisitReply::Mode { localizing: true, owned: false });
    assert_eq!(v.stage, VisitStage::Report);
    v.hear(&mut rec, &VisitReply::Report(None));
    assert_eq!(v.stage, VisitStage::Over);

    let mut v = Visit::start("a".into(), false);
    v.hear(&mut rec, &VisitReply::Status { reachable: false, tracking_valid: false });
    assert_eq!(v.stage, VisitStage::Running);
    v.hear(&mut rec, &VisitReply::Running(false));
    let o = v.hear(&mut rec, &VisitReply::Restarted(true));
    assert_eq!(words(&o.notice.unwrap()), "a on-device localizer was not running — restarted");
}

#[test]
fn a_verifier_runs_in_the_mode_of_its_role() {
    let mut rec = Record::new(None);
    let mut v = at(true, VisitStage::Mode);
    assert!(!v.want_localize());
    v.hear(&mut rec, &VisitReply::Mode { localizing: true, owned: false });
    let o = v.hear(&mut rec, &VisitReply::Restarted(true));
    assert_eq!(words(&o.notice.unwrap()), "a restarted in verify mode to match its role");
    let mut v = at(false, VisitStage::Mode);
    v.hear(&mut rec, &VisitReply::Mode { localizing: false, owned: false });
    assert_eq!(v.stage, VisitStage::Swap);
    let mut v = at(false, VisitStage::Mode);
    v.hear(&mut rec, &VisitReply::Mode { localizing: true, owned: true });
    assert_eq!(v.stage, VisitStage::Over, "the pair stream owns this puck");
    let mut v = at(true, VisitStage::Mode);
    v.hear(&mut rec, &VisitReply::Mode { localizing: false, owned: false });
    assert_eq!(v.stage, VisitStage::Verdict);
}

/// The hip is folded on the second refutation, and never localized.
#[test]
fn a_refuted_hip_is_folded() {
    let mut rec = Record::new(None);
    let refuted = VisitReply::Verdict(Some(("refuted".into(), double(3.0))));
    let o = at(true, VisitStage::Verdict).hear(&mut rec, &refuted);
    assert!(o.notice.is_none() && o.request.is_none());
    assert_eq!(rec.refutes, 1);
    let o = at(true, VisitStage::Verdict).hear(&mut rec, &refuted);
    assert_eq!(o.request, Some((LocKind::Fold, false)));
    assert_eq!(
        words(&o.notice.unwrap()),
        "a (hip) self-check refuted (<1>° off) — the map has fallen behind the room; folding \
         current view"
    );
    assert_eq!(rec.refutes, 0);
    at(true, VisitStage::Verdict).hear(&mut rec, &refuted);
    let fine = VisitReply::Verdict(Some(("confirmed".into(), double(0.0))));
    at(true, VisitStage::Verdict).hear(&mut rec, &fine);
    assert_eq!(rec.refutes, 0);
}

#[test]
fn a_blind_verifier_gets_its_frames_back() {
    let mut rec = Record::new(None);
    let mut v = at(false, VisitStage::Report);
    v.hear(&mut rec, &report("no-input", solve(0.0, 0.0, 0), 0));
    assert_eq!(v.stage, VisitStage::Serve);
    let o = v.hear(&mut rec, &VisitReply::Served(true));
    assert_eq!(words(&o.notice.unwrap()), "a localizer had no frames — restarted q1serve");
    let mut v = at(true, VisitStage::Verdict);
    v.hear(&mut rec, &VisitReply::Verdict(Some(("no-input".into(), double(0.0)))));
    let o = v.hear(&mut rec, &VisitReply::Served(true));
    assert_eq!(words(&o.notice.unwrap()), "a verifier had no frames — restarted q1serve");
    assert!(frozen(double(5.1)) && !frozen(double(5.0)));
    assert!(words(&frozen_notice("a", double(9.0)))
        .starts_with("a q1serve is serving a <0>s-old frame (frozen) — restarting"));
}

/// Three sound reports refine by their middle; the same report counts once.
#[test]
fn reports_refine_by_their_middle() {
    let mut rec = Record::new(Some(anchor()));
    for (yaw, x, inliers, stamp) in [(11.0, 0.5, 900, 1), (10.0, 0.1, 700, 2)] {
        let mut v = at(false, VisitStage::Report);
        v.hear(&mut rec, &report("localized", solve(yaw, x, inliers), stamp));
        assert_eq!(v.stage, VisitStage::Over);
    }
    let mut v = at(false, VisitStage::Report);
    v.hear(&mut rec, &report("localized", solve(9.0, 9.0, 900), 2));
    assert_eq!(rec.feedback.len(), 2, "seen before");
    let mut v = at(false, VisitStage::Report);
    v.hear(&mut rec, &report("localized", solve(9.0, 9.0, 499), 3));
    assert_eq!(rec.feedback.len(), 2, "too few matches");
    let mut v = at(false, VisitStage::Report);
    v.hear(&mut rec, &report("localized", solve(12.0, 0.3, 800), 3));
    assert_eq!(v.stage, VisitStage::Refine(solve(11.0, 0.3, 700)));

    v.hear(&mut rec, &VisitReply::Stored(Some((anchor(), true, double(1.0), single(0.3), false))));
    assert_eq!(v.stage, VisitStage::Step(solve(11.0, 0.3, 700), double(1.0), single(0.3)));
    v.hear(
        &mut rec,
        &VisitReply::Stepped {
            yaw: double(10.35),
            t: [single(0.05), single(0.0), single(0.0)],
            dyaw: double(0.35),
            dist: double(0.05),
        },
    );
    let stepped = Solve {
        yaw: double(10.35),
        t: [single(0.05), single(0.0), single(0.0)],
        inliers: 700,
    };
    assert_eq!(v.stage, VisitStage::Write(stepped, double(1.0), single(0.3)));
    let o = v.hear(
        &mut rec,
        &VisitReply::Written {
            done: true,
            dyaw: double(0.35),
            moved: single(50.0),
            of: single(300.0),
        },
    );
    assert_eq!(o.push, Some(stepped));
    assert_eq!(
        words(&o.notice.unwrap()),
        "a refined ON-DEVICE: yaw <+2>° (Δ<2>° / Δ<0> mm of a <2>°/<0> mm measurement, 700 \
         inliers)"
    );
    assert!(rec.feedback.is_empty());
}

#[test]
fn noise_and_busy_pucks_are_left_alone() {
    let mut rec = Record::new(None);
    let x = solve(10.0, 0.0, 700);
    let mut v = at(false, VisitStage::Refine(x));
    v.hear(&mut rec, &VisitReply::Stored(Some((anchor(), false, double(0.1), single(0.01), false))));
    assert_eq!(v.stage, VisitStage::Over);
    assert_eq!(rec.anchor, Some(anchor()), "what the host solved is the anchor");
    let mut v = at(false, VisitStage::Refine(x));
    v.hear(&mut rec, &VisitReply::Stored(Some((anchor(), true, double(1.0), single(1.0), true))));
    assert_eq!(v.stage, VisitStage::Over);
    let mut v = at(false, VisitStage::Refine(x));
    v.hear(&mut rec, &VisitReply::Stored(None));
    assert_eq!(v.stage, VisitStage::Over);
}

/// A refinement that strays from what the host solved is not written.
#[test]
fn refinement_stays_with_the_anchor() {
    let x = solve(13.0, 0.0, 700);
    let stepped = |dyaw: f64, dist: f64| VisitReply::Stepped {
        yaw: double(12.5),
        t: [single(0.0); 3],
        dyaw: double(dyaw),
        dist: double(dist),
    };
    let stage = VisitStage::Step(x, double(1.0), single(0.0));
    for (dyaw, dist) in [(2.1, 0.0), (0.0, 0.26)] {
        let mut rec = Record::new(Some(anchor()));
        let mut v = at(false, stage);
        let o = v.hear(&mut rec, &stepped(dyaw, dist));
        assert_eq!(v.stage, VisitStage::Over);
        assert!(o.drift && o.push.is_none());
        assert_eq!(o.request, Some((LocKind::Localize, false)));
        assert!(words(&o.notice.unwrap())
            .starts_with("a on-device refinement drifted past the host anchor"));
    }
    let mut rec = Record::new(None);
    let mut v = at(false, stage);
    v.hear(&mut rec, &stepped(9.0, 9.0));
    assert!(matches!(v.stage, VisitStage::Write(..)), "without an anchor nothing is held");
}

/// The third failure in a row drops the transform.
#[test]
fn three_failures_drop_the_transform() {
    let mut rec = Record::new(None);
    for (stamp, stage) in [(1, VisitStage::Over), (2, VisitStage::Over), (3, VisitStage::Drop)] {
        let mut v = at(false, VisitStage::Report);
        v.hear(&mut rec, &report("failed", solve(0.0, 0.0, 0), stamp));
        assert_eq!(v.stage, stage);
    }
    let mut v = at(false, VisitStage::Drop);
    let o = v.hear(&mut rec, &VisitReply::Dropped(true));
    assert!(o.drift && o.rebuild);
    assert_eq!(o.request, Some((LocKind::Localize, true)));
    assert_eq!(
        words(&o.notice.unwrap()),
        "a cannot re-solve against the hip map (3 consecutive fails) — its Insight frame moved, \
         output held; WALK IT to re-join (sitting still cannot fix this)"
    );
    let mut v = at(false, VisitStage::Report);
    v.hear(&mut rec, &report("failed", solve(0.0, 0.0, 0), 4));
    assert_eq!(v.stage, VisitStage::Over, "it is dropped once");
}

#[test]
fn feedback_and_steps_are_bounded() {
    let mut rec = Record::new(None);
    for stamp in 1..=20 {
        let mut v = at(false, VisitStage::Report);
        v.hear(&mut rec, &report("localized", solve(stamp as f64, 0.0, 600), stamp));
    }
    assert_eq!(rec.feedback.len(), KEPT);
    assert_eq!(rec.feedback[0], solve(13.0, 0.0, 600));
    assert_eq!(yaw_step(double(3.0)), double(0.5));
    assert_eq!(yaw_step(double(-3.0)), double(-0.5));
    assert_eq!(yaw_step(double(0.25)), double(0.25));
    assert_eq!(axis_step(double(1.0)), double(0.05));
}

/// A solve that is not made of numbers is kept like any other, and counts towards
/// the window. The axes that it leaves alone have their median.
#[test]
fn a_solve_without_numbers_is_kept() {
    let mut rec = Record::new(None);
    rec.refutes = 2;
    let mut v = at(false, VisitStage::Report);
    v.hear(&mut rec, &report("localized", solve(f64::NAN, 0.1, 900), 7));
    assert_eq!(v.stage, VisitStage::Over);
    assert_eq!((rec.refutes, rec.seen, rec.feedback.len()), (0, 7, 1));

    let mut v = at(false, VisitStage::Report);
    v.hear(&mut rec, &report("localized", solve(5.0, 0.3, 800), 8));
    let mut v3 = at(false, VisitStage::Report);
    v3.hear(&mut rec, &report("localized", solve(4.0, 0.2, 700), 9));
    assert_eq!((v.stage, rec.feedback.len()), (VisitStage::Over, 3));
    match v3.stage {
        VisitStage::Refine(m) => {
            assert!([double(f64::NAN), double(5.0), double(4.0)].contains(&m.yaw));
            assert_eq!((m.t[0], m.inliers), (single(0.2), 700));
        }
        other => panic!("{other:?}"),
    }
}
