use insight_map_loader::aggregate::{Aggregator, TickSummary};
use insight_map_loader::book::Book;
use insight_map_loader::bridge::{middle, solve, PosePair};
use insight_map_loader::config::{BridgeEntry, PuckCfg};
use insight_map_loader::ieee::{greatest, median, Double, Single};
use insight_map_loader::monitor::{sort_sources, Monitor, Publish};
use insight_map_loader::mpt1::{Pose, SourcePacket};
use insight_map_loader::service::notice::{Notice, Piece};
use insight_map_loader::service::stream::{watch, Motion};
use insight_map_loader::transform::Frame4Dof;
use insight_map_loader::watchdog::{
    pairable, publish_bridge_states, rekey, BridgeState, CheckOutcome, Order, PuckWatch,
    SolveOutcome, FRESH, PAIRABLE, STILL_SPAN,
};
use insight_map_loader::{Device, Ingest, Sample, SlotState};
use std::collections::BTreeMap;

const MS: u64 = 1_000_000;
const S: u64 = 1_000_000_000;

fn single(x: f32) -> Single {
    Single { bits: x.to_bits() }
}

fn words(n: &Notice) -> String {
    n.pieces
        .iter()
        .map(|p| match p {
            Piece::Words(s) => s.clone(),
            Piece::Plain(_, places) => format!("<{places}>"),
            Piece::Signed(_, places) => format!("<+{places}>"),
        })
        .collect()
}

fn sample(src: u8, t_ns: u64, arrived: u64) -> Sample {
    let zero = Pose::identity().p;
    Sample {
        packet: SourcePacket {
            src,
            valid: true,
            battery_pct: 50,
            charging: false,
            t_ns,
            pose: Pose::identity(),
            vel: zero,
            angvel: zero,
        },
        arrived,
    }
}

fn puck(ip: &str, device: u8, id: Option<u8>) -> PuckCfg {
    PuckCfg { ip: ip.into(), device, id }
}

fn still() -> Motion {
    let z = single(0.0);
    Motion { dt: z, ms: z, dist: z, speed: z }
}

/// Every source heard from is either a role's or unclaimed.
#[test]
fn no_source_goes_missing() {
    let mut i = Ingest::new(200 * MS);
    for src in [1u8, 104, 200] {
        i.receive(&sample(src, 1, 0).packet.encode(), 0);
    }
    let mut roles = BTreeMap::new();
    roles.insert(104u8, Device::Chest);
    roles.insert(1u8, Device::LeftFoot);
    let (slots, unknown) = sort_sources(&roles, &i.all(0));
    let claimed: Vec<(Device, u8)> = slots.iter().map(|s| (s.0, s.2)).collect();
    assert_eq!(claimed, vec![(Device::LeftFoot, 1), (Device::Chest, 104)]);
    assert_eq!(unknown, vec![200]);
}

#[test]
fn the_roster_is_taken_when_it_changes() {
    let mut m = Monitor::new(0);
    assert!(m.roster_due(0, false));
    assert!(!m.roster_due(0, false));
    assert!(m.roster_due(0, true));
    assert!(m.roster_due(1, false));
}

#[test]
fn rates_are_counted_over_a_second() {
    let mut m = Monitor::new(0);
    m.count(&vec![sample(1, 10, 0), sample(2, 10, 0)]);
    m.count(&vec![sample(1, 11, 0), sample(2, 10, 0)]);
    assert_eq!(m.publish(200 * MS), Publish::Wait);
    assert_eq!(m.publish(250 * MS), Publish::Keep);
    assert_eq!(m.publish(S), Publish::Roll);
    assert_eq!(m.roll(S), vec![(1, 2), (2, 1)]);
    assert_eq!(m.publish(S + 1), Publish::Wait);
}

/// A jump is told once until the bridge was checked; a reboot and a return are
/// told as such.
#[test]
fn jumps_reboots_and_returns_are_told() {
    let mut m = Monitor::new(0);
    m.take_roster(&[puck("a", 1, None)]);
    let mut asked: Book<()> = Book::new();
    let live = |t: u64| vec![sample(1, t, 0)];
    let slots = |st: SlotState| vec![(Device::LeftFoot, st)];
    let jump = Motion {
        dt: single(0.05),
        ms: single(50.0),
        dist: single(0.5),
        speed: single(10.5),
    };
    let hour = 3_600 * S;
    assert!(watch(&mut m, &mut asked, &live(2 * hour), &slots(SlotState::Live), &vec![jump]).is_empty());
    let told = watch(&mut m, &mut asked, &live(2 * hour + 1), &slots(SlotState::Live), &vec![jump]);
    assert_eq!(words(&told[0]), "a pose jumped <2> m in <0> ms — verifying bridge");
    let told = watch(&mut m, &mut asked, &live(2 * hour + 2), &slots(SlotState::Live), &vec![jump]);
    assert!(told.is_empty());
    let slow = Motion { speed: single(9.0), ..jump };
    let mut fresh: Book<()> = Book::new();
    let told = watch(&mut m, &mut fresh, &live(2 * hour + 3), &slots(SlotState::Live), &vec![slow]);
    assert!(told.is_empty() && !fresh.contains("a"));

    let told = watch(&mut m, &mut fresh, &live(5), &slots(SlotState::Stale), &vec![jump]);
    assert_eq!(told.len(), 1);
    assert!(words(&told[0]).starts_with("a REBOOTED (boot clock regressed) — "));
    let told = watch(&mut m, &mut fresh, &live(6), &slots(SlotState::Live), &vec![still()]);
    assert_eq!(told.len(), 1);
    assert!(words(&told[0]).starts_with("a back after a gap — "));
}

/// Only roles with a transform are emitted, and each sample once.
#[test]
fn a_sample_is_emitted_once_and_only_where_it_is_placed() {
    let mut a = Aggregator::new();
    a.roles.insert(104, Device::Chest);
    a.roles.insert(2, Device::RightFoot);
    a.transforms.insert(Device::Chest.id(), Frame4Dof::identity());
    let live = vec![sample(104, 9, 0), sample(2, 9, 0), sample(77, 9, 0)];
    let out = a.tick(&live, 0, 500);
    assert_eq!(out.len(), 1);
    assert_eq!((out[0].device, out[0].at, out[0].stamp), (Device::Chest, 0, Some(500)));
    assert_eq!(a.skipped_no_transform, 1);
    let again = a.tick(&live, 0, 600);
    assert!(again.iter().all(|e| e.stamp.is_none()));
    a.sent(true);
    a.sent(false);
    assert_eq!(a.emitted, 1);
    let z = single(0.0);
    let one = TickSummary::of(vec![(Device::Chest, [z; 3])], single(1.0), single(2.0));
    assert!(one.separation.is_none() && one.speed_sum.is_none());
    let two = TickSummary::of(
        vec![(Device::Chest, [z; 3]), (Device::Waist, [z; 3])],
        single(1.0),
        single(2.0),
    );
    assert_eq!((two.separation, two.speed_sum), (Some(single(1.0)), Some(single(2.0))));
}

fn watched() -> PuckWatch {
    let w = rekey(Vec::new(), &[puck("a", 1, Some(100))], &Book::new());
    w.into_iter().next().unwrap()
}

/// A bridge is solved only while the puck is still.
#[test]
fn a_still_puck_is_bridged() {
    let z = single(0.0);
    let mut w = watched();
    assert_eq!((w.src, w.state), (100, BridgeState::Missing));
    assert!(w.take_in(Some(sample(100, 1, 0)), 0));
    assert_eq!(w.judge(z, z, &vec![z], 0), Order::Rest, "not long enough");
    assert!(w.take_in(Some(sample(100, 2, STILL_SPAN)), STILL_SPAN));
    assert_eq!(w.judge(single(0.06), z, &vec![z], STILL_SPAN), Order::Rest);
    assert_eq!(w.judge(z, z, &vec![single(0.03)], STILL_SPAN), Order::Rest);
    assert_eq!(w.judge(z, z, &vec![z, z], STILL_SPAN), Order::Solve);
    assert_eq!(w.solved(Some((single(0.6), z))), SolveOutcome::TooLoose);
    assert_eq!(w.solved(None), SolveOutcome::Nothing);
    assert_eq!(w.solved(Some((single(0.4), single(12.0)))), SolveOutcome::Accepted);
    assert_eq!((w.state, w.yaw_deg), (BridgeState::Good, single(12.0)));
    assert!(!w.take_in(Some(sample(100, 3, 0)), FRESH + 1));
    assert!(!w.take_in(None, 0));
    assert_eq!(w.position(0), Some([z; 3]));
    assert_eq!(w.position(9), None);
    let shown = publish_bridge_states(&vec![w]);
    assert_eq!(shown, vec![("a".to_string(), BridgeState::Good, single(12.0))]);
}

/// Twice off is stale; far off is a jump at once.
#[test]
fn a_bridge_is_checked() {
    let z = single(0.0);
    let mut w = watched();
    w.solved(Some((z, z)));
    assert_eq!(w.checked(Some((single(0.2), z))), CheckOutcome::Quiet);
    assert_eq!(w.checked(Some((z, z))), CheckOutcome::Quiet);
    assert_eq!(w.suspect, 0);
    assert_eq!(w.checked(Some((single(0.2), z))), CheckOutcome::Quiet);
    assert_eq!(w.checked(Some((z, single(4.0)))), CheckOutcome::Stale);
    assert_eq!(w.state, BridgeState::Suspect);
    w.solved(Some((z, z)));
    assert_eq!(w.checked(Some((single(0.6), z))), CheckOutcome::Jumped);
    assert_eq!((w.state, w.suspect), (BridgeState::Suspect, 0));
    assert_eq!(w.checked(None), CheckOutcome::Quiet);
    assert!(pairable(Some(sample(1, 1, 0)), PAIRABLE));
    assert!(!pairable(Some(sample(1, 1, 0)), PAIRABLE + 1) && !pairable(None, 0));
}

/// A role change keeps the watch of a puck; a bridge on file counts as good.
#[test]
fn watches_follow_the_roster() {
    let z = single(0.0);
    let mut bridges: Book<BridgeEntry> = Book::new();
    bridges.insert(
        "b",
        BridgeEntry { yaw_deg: single(7.0), t: [z; 3], yaw_spread_deg: z, unix_time: 1 },
    );
    let pucks = [puck("a", 1, None), puck("b", 2, None)];
    let mut w = rekey(Vec::new(), &pucks, &bridges);
    assert_eq!(w[1].state, BridgeState::Good);
    assert_eq!(w[1].yaw_deg, single(7.0));
    w[0].solved(Some((z, single(3.0))));
    let moved = [puck("b", 2, None), puck("a", 5, None), puck("c", 1, None)];
    let w = rekey(w, &moved, &bridges);
    let a = w.iter().find(|x| x.ip == "a").unwrap();
    assert_eq!((a.src, a.state, a.yaw_deg), (5, BridgeState::Good, single(3.0)));
    assert_eq!(w.len(), 3);
}

/// Fewer than three pairs make no bridge.
#[test]
fn too_few_pairs_is_refused() {
    assert!(solve(&Vec::new(), Frame4Dof::identity(), single(0.0), &Vec::new()).is_none());
    let p = PosePair { world: Pose::identity(), local: Pose::identity() };
    let two = vec![p, p];
    assert!(solve(&two, Frame4Dof::identity(), single(0.0), &Vec::new()).is_none());
    let three = vec![p, p, p];
    let off = vec![single(0.1), single(0.3), single(0.2)];
    let s = solve(&three, Frame4Dof::identity(), single(0.5), &off).unwrap();
    assert_eq!((s.pairs, s.t_spread_m, s.yaw_spread_deg), (3, single(0.3), single(0.5)));
}

/// Numbers are ordered as numbers, not by their bits.
#[test]
fn reals_are_ordered_by_value() {
    let v = |xs: &[f32]| xs.iter().map(|x| single(*x)).collect::<Vec<_>>();
    assert_eq!(median(&v(&[3.0, -1.0, 2.0])), single(2.0));
    assert_eq!(median(&v(&[-3.0, -1.0, -2.0, 5.0])), single(-1.0));
    assert_eq!(greatest(single(0.0), &v(&[-5.0, 0.25, f32::NAN])), single(0.25));
    assert_eq!(greatest(single(0.0), &v(&[-5.0])), single(0.0));
    assert_eq!(
        middle(&v(&[1.0, 2.0, 3.0]), &v(&[9.0]), &v(&[-1.0, -2.0])),
        [single(2.0), single(9.0), single(-1.0)]
    );
    assert!(!single(f32::NAN).above(0) && !single(f32::NAN).below(0));
    assert!(single(0.2).above(0.1f32.to_bits()) && !single(-0.2).above(0.1f32.to_bits()));
    assert!(single(-0.2).below(0.1f32.to_bits()));
    let d = |x: f64| Double { bits: x.to_bits() };
    assert_eq!(d(-9.0).clamp_to(0.5f64.to_bits()), d(-0.5));
    assert!(!d(f64::NAN).is_number() && d(f64::INFINITY).is_number());
}

/// A puck with an id of its own is noticed as any other: it is known by the byte it
/// stamps, and its slot by its role.
#[test]
fn a_provisioned_puck_is_noticed() {
    let mut m = Monitor::new(0);
    m.take_roster(&[puck("a", 0, Some(200)), puck("b", 1, None)]);
    assert_eq!(m.ip_from.get(&200).map(|s| s.as_str()), Some("a"));
    assert_eq!(m.ip_from.get(&1).map(|s| s.as_str()), Some("b"));
    assert!(m.ip_from.get(&0).is_none());
    let mut asked: Book<()> = Book::new();
    let hour = 3_600 * S;
    let live = |t: u64| vec![sample(200, t, 0)];
    let slots = |st: SlotState| vec![(Device::Waist, st)];
    let told = watch(&mut m, &mut asked, &live(2 * hour), &slots(SlotState::Stale), &vec![still()]);
    assert!(told.is_empty());
    let told = watch(&mut m, &mut asked, &live(5), &slots(SlotState::Stale), &vec![still()]);
    assert_eq!(words(&told[0]), "a REBOOTED (boot clock regressed) — re-bridging");
    assert!(asked.contains("a"));

    let mut asked: Book<()> = Book::new();
    let jump = Motion {
        dt: single(0.05),
        ms: single(50.0),
        dist: single(0.5),
        speed: single(10.5),
    };
    let told = watch(&mut m, &mut asked, &live(6), &slots(SlotState::Live), &vec![jump]);
    assert_eq!(words(&told[0]), "a back after a gap — verifying bridge");
    assert_eq!(told.len(), 1, "told of already");
    let mut asked: Book<()> = Book::new();
    let told = watch(&mut m, &mut asked, &live(7), &slots(SlotState::Live), &vec![jump]);
    assert_eq!(words(&told[0]), "a pose jumped <2> m in <0> ms — verifying bridge");
    assert!(asked.contains("a"));
}

/// What is asked of a puck that is not heard from, or that moves, is kept.
#[test]
fn what_is_asked_is_kept_for_the_next_opportunity() {
    let z = single(0.0);
    let mut w = watched();
    w.solved(Some((z, z)));
    w.ask(false, true);
    assert!(!w.take_in(None, 0));
    assert!(w.take_in(Some(sample(100, 1, 0)), 0));
    assert_eq!(w.judge(single(0.4), z, &vec![z], 0), Order::Rest, "too fast");
    assert_eq!(w.judge(single(0.2), z, &vec![z], 1), Order::Check);
    assert_eq!(w.judge(single(0.2), z, &vec![z], 2), Order::Rest, "asked once");

    w.ask(true, false);
    assert!(!w.take_in(None, 3));
    assert_eq!(w.judge(single(0.2), z, &vec![z], 4), Order::Rest);
    assert_eq!(w.state, BridgeState::WaitingStill);
    assert!(w.take_in(Some(sample(100, 2, STILL_SPAN)), STILL_SPAN));
    assert_eq!(w.judge(z, z, &vec![z, z], STILL_SPAN), Order::Solve);
}
