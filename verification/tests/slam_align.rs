use insight_map_loader::book::Book;
use insight_map_loader::bridge::BridgeSolution;
use insight_map_loader::ieee::Single;
use insight_map_loader::mpt1::{Pose, SourcePacket};
use insight_map_loader::service::notice::{Notice, Piece};
use insight_map_loader::service::stream::Motion;
use insight_map_loader::slam::align::{
    alignment, bump_port, coherent, paired_notice, worth_writing, Align, JOIN_WINDOW, PAIRS_KEPT,
    PAIR_OWNS,
};
use insight_map_loader::slam::config::{MapTransform, PuckCfg};
use insight_map_loader::slam::requests::{LocKind, LocState};
use insight_map_loader::slam::stream;
use insight_map_loader::monitor::Monitor;
use insight_map_loader::transform::Frame4Dof;
use insight_map_loader::watchdog::BridgeState;
use insight_map_loader::{Device, Sample, SlotState};

const MS: u64 = 1_000_000;
const S: u64 = 1_000_000_000;

fn single(x: f32) -> Single {
    Single { bits: x.to_bits() }
}

fn words(n: &Notice) -> String {
    n.pieces
        .iter()
        .map(|p| match p {
            Piece::Words(s) => s.clone(),
            Piece::Plain(_, places) => format!("<{places}>"),
            Piece::Signed(_, places) => format!("<+{places}>"),
        })
        .collect()
}

fn sample(src: u8, t_ns: u64, x: f32, arrived: u64) -> Sample {
    let mut pose = Pose::identity();
    pose.p[0] = single(x);
    let zero = Pose::identity().p;
    Sample {
        packet: SourcePacket {
            src,
            valid: true,
            battery_pct: 50,
            charging: false,
            t_ns,
            pose,
            vel: zero,
            angvel: zero,
        },
        arrived,
    }
}

fn open(hip: &str) -> LocState {
    let mut s = LocState::new(Some(hip.into()), false);
    s.start();
    s
}

fn wandering(dev: u8) -> Align {
    let mut a = Align::new(0);
    for i in 0..21 {
        a.note(&vec![sample(dev, i, i as f32, 0)], i * 100 * MS);
    }
    a
}

#[test]
fn everything_has_its_period() {
    let mut a = Align::new(0);
    assert!(!a.hist_due(99 * MS) && a.hist_due(100 * MS) && !a.hist_due(150 * MS));
    assert!(!a.paircal_due(false, S - 1) && !a.paircal_due(true, S) && a.paircal_due(false, S));
    assert!(!a.join_due(2 * S - 1) && a.join_due(2 * S));
}

#[test]
fn positions_roll_out_of_the_window() {
    let mut a = wandering(1);
    assert_eq!(a.moving(), vec![1]);
    assert_eq!(a.positions(1).len(), 21);
    a.note(&vec![sample(1, 99, 7.0, 0)], 2 * S + JOIN_WINDOW);
    let left = a.positions(1);
    assert_eq!(left.len(), 2, "what is just at the end of the window stays");
    assert_eq!(left[1][0], single(7.0));
    a.forget(1);
    assert!(a.moving().is_empty());
    assert!(a.positions(1).is_empty());
}

/// A puck that walks joins the map; the hip folds into it instead.
#[test]
fn walking_joins_and_the_hip_folds() {
    let mut a = wandering(1);
    let mut loc = open("hip");
    let wide = single(0.7);
    assert!(a.join(&mut loc, 1, "a", single(0.5), false, false, 5 * S).is_none(), "too narrow");
    assert!(a.join(&mut loc, 1, "a", wide, true, false, 5 * S).is_none(), "aligned and fine");
    let n = a.join(&mut loc, 1, "a", wide, false, false, 5 * S).unwrap();
    assert_eq!(words(&n), "a moving (<1> m spread) — localizing into the map (join)");
    let q = loc.take().unwrap();
    assert_eq!((q.kind, q.coldstart), (LocKind::Localize, true));
    loc.done("a");
    let n = a.join(&mut loc, 1, "a", wide, true, true, 200 * S).unwrap();
    assert_eq!(words(&n), "a moving (<1> m spread) — re-localizing to clear drift");

    let mut loc = open("hip");
    assert!(a.join(&mut loc, 1, "hip", wide, false, true, 5 * S).is_none());
    assert_eq!(loc.take().unwrap().kind, LocKind::Fold);
    loc.done("hip");
    a.join(&mut loc, 1, "hip", wide, false, true, 100 * S);
    assert!(loc.take().is_none(), "folding has its pause");
    assert!(a.join(&mut loc, 9, "b", wide, false, false, 5 * S).is_none(), "nothing known of it");
}

#[test]
fn pairs_are_fresh_slow_and_seen_once() {
    let mut a = Align::new(0);
    let live = vec![sample(1, 5, 0.0, 0)];
    let slow = vec![single(0.1)];
    assert!(a.pair(&sample(1, 70, 1.0, 0), &live, &slow, 10 * MS));
    assert!(!a.pair(&sample(1, 70, 1.0, 0), &live, &slow, 10 * MS), "the same sample");
    assert!(!a.pair(&sample(1, 71, 1.0, 0), &live, &vec![single(0.4)], 10 * MS), "too fast");
    assert!(!a.pair(&sample(2, 71, 1.0, 0), &live, &slow, 10 * MS), "no partner");
    assert!(!a.pair(&sample(1, 71, 1.0, 0), &live, &slow, 90 * MS), "too old");
    let mut lost = sample(1, 72, 1.0, 0);
    lost.packet.valid = false;
    assert!(!a.pair(&lost, &live, &slow, 10 * MS));
    assert_eq!(a.window(1).len(), 1);
    assert_eq!(a.window(1)[0].world.p[0], single(1.0));
    assert!(a.ready().is_empty());
    for t in 0..100 {
        assert!(a.pair(&sample(1, 100 + t, 1.0, 0), &live, &slow, 10 * MS));
    }
    assert_eq!(a.window(1).len(), PAIRS_KEPT);
    assert_eq!(a.ready(), vec![1]);
}

#[test]
fn only_a_coherent_and_new_solve_is_written() {
    let sol = |yaw: f32, t: f32| BridgeSolution {
        transform: Frame4Dof::identity(),
        yaw_spread_deg: single(yaw),
        t_spread_m: single(t),
        pairs: 8,
    };
    assert!(coherent(&sol(1.5, 0.1)) && !coherent(&sol(1.6, 0.0)) && !coherent(&sol(0.0, 0.2)));
    assert!(worth_writing(None));
    assert!(worth_writing(Some((false, single(0.0), single(0.0)))));
    assert!(!worth_writing(Some((true, single(0.05), single(0.005)))));
    assert!(worth_writing(Some((true, single(0.2), single(0.0)))));
    assert!(worth_writing(Some((true, single(0.0), single(0.02)))));
    assert_eq!(
        words(&paired_notice("a", single(1.0), 12, single(0.5))),
        "a aligned by PAIR STREAM: yaw <+2>° (12 pairs, spread <2>°)"
    );

    let mut a = Align::new(0);
    assert!(!a.owns("a", 0));
    assert!(a.wrote("a", 0), "the first is told");
    assert!(!a.wrote("a", 10 * S));
    assert!(a.wrote("a", 41 * S));
    assert!(a.owns("a", 41 * S + PAIR_OWNS - 1) && !a.owns("a", 41 * S + PAIR_OWNS));
    assert!(!a.owns("b", 41 * S));
}

#[test]
fn realigning_is_asked_for_or_opted_into() {
    let puck = |ip: &str| PuckCfg {
        ip: ip.into(),
        device: 0,
        reference: false,
        role: if ip == "hip" { Some("hip".into()) } else { None },
    };
    let pucks = vec![puck("hip"), puck("a")];
    let stored = vec![true, true];
    let good = vec![BridgeState::Good];
    let bad = vec![BridgeState::Good, BridgeState::Missing];
    let mut a = Align::new(0);
    let mut loc = open("hip");
    let by = |a: &mut Align, loc: &mut LocState, manual, opted, drifted, b: &Vec<BridgeState>, now| {
        a.realign(loc, &pucks, &stored, manual, opted, drifted, b, now)
    };
    assert!(by(&mut a, &mut loc, false, false, true, &good, S).is_none());
    assert!(by(&mut a, &mut loc, false, true, false, &good, S).is_none());
    assert!(by(&mut a, &mut loc, false, true, true, &bad, S).is_none());
    assert_eq!(
        by(&mut a, &mut loc, false, true, true, &good, S).unwrap(),
        "localize requested (AUTO: drift detected)"
    );
    assert_eq!(loc.take().unwrap().ip, "a");
    assert!(loc.take().is_none(), "the hip is the frame");
    assert!(by(&mut a, &mut loc, false, true, true, &good, 600 * S).is_none());
    assert_eq!(
        by(&mut a, &mut loc, true, false, false, &bad, 2 * S).unwrap(),
        "localize requested (MANUAL button press)"
    );
}

#[test]
fn the_alignment_is_shown() {
    let mut t: Book<MapTransform> = Book::new();
    let loc = open("hip");
    let a = alignment(&t, false, &loc, "t.json");
    assert_eq!(a.error.unwrap(), "no t.json — pucks will join on first walk (or seed it)");
    assert!(!a.realign_running);
    t.insert(
        "a",
        MapTransform { yaw_deg: single(3.0), t: [single(0.0); 3], unix_time: 0, frame: None },
    );
    let mut loc = loc;
    loc.request_localize("a", false, true, 0);
    let a = alignment(&t, false, &loc, "t.json");
    assert_eq!(a.map_t, vec![("a".to_string(), single(3.0), true)]);
    assert!(a.error.is_none() && a.realign_running);
    assert_eq!(a.localizing, vec!["a".to_string()]);
    let a = alignment(&t, true, &loc, "t.json");
    assert!(a.map_t.is_empty() && a.colocated && a.error.is_none());
}

#[test]
fn the_second_stream_has_the_next_port() {
    assert_eq!(bump_port("0.0.0.0:5180", 2), "0.0.0.0:5182");
    assert_eq!(bump_port("127.0.0.1:x", 2), "127.0.0.1:5182");
    assert_eq!(bump_port("nowhere", 2), "0.0.0.0:5182");
    assert_eq!(bump_port("[::1]:5180", 3), "[::1]:5183");
}

/// A puck that rebooted is verified, its wandering forgotten, and a jump is
/// checked.
#[test]
fn the_stream_is_watched() {
    let mut m = Monitor::new(0);
    m.take_roster(&[insight_map_loader::config::PuckCfg {
        ip: "a".into(),
        device: 1,
        id: None,
    }]);
    let mut align = wandering(1);
    let mut loc = open("hip");
    let mut asked: Book<()> = Book::new();
    let still = Motion {
        dt: single(0.0),
        ms: single(0.0),
        dist: single(0.0),
        speed: single(0.0),
    };
    let slots = vec![(Device::LeftFoot, SlotState::Live)];
    let hour = 3_600 * S;
    let first = vec![sample(1, 3 * hour, 0.0, 0)];
    let told = stream::watch(
        &mut m, &mut align, &mut loc, &mut asked, &first, &slots, &vec![still], 0,
    );
    assert!(told.is_empty());
    let jumped = Motion {
        dt: single(0.05),
        ms: single(50.0),
        dist: single(1.0),
        speed: single(20.0),
    };
    let second = vec![sample(1, 3 * hour + 50 * MS, 1.0, 50 * MS)];
    let told = stream::watch(
        &mut m, &mut align, &mut loc, &mut asked, &second, &slots, &vec![jumped], 50 * MS,
    );
    assert_eq!(words(&told[0]), "a pose jumped <2> m in <0> ms — verifying bridge");
    assert!(asked.contains("a"));
    let rebooted = vec![sample(1, S, 1.0, S)];
    let told = stream::watch(
        &mut m, &mut align, &mut loc, &mut asked, &rebooted, &slots, &vec![still], S,
    );
    assert!(words(&told[0]).starts_with("a REBOOTED (boot clock regressed) — "));
    assert_eq!(loc.take().unwrap().kind, LocKind::Verify);
    assert!(align.moving().is_empty());
}
