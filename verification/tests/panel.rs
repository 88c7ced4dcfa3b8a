use insight_map_loader::config::PuckCfg;
use insight_map_loader::fleet::PuckStatus;
use insight_map_loader::ieee::Single;
use insight_map_loader::jobs::{JobState, JobStep, StepState};
use insight_map_loader::mpt1::Device;
use insight_map_loader::panel::{
    banner, bridge_line, create_offer, emitted_line, identify_hint, job_mark, live_roles, map_line,
    map_source, offline_line, repaint_after, role_choice, role_of, role_title, row_title,
    share_label, shared_root, slot_line, sources, step_line, taken, targets, tracker_line,
    tracking_line, unclaimed_line, CreateOffer, FleetRow, Tone, Trails, TRAIL,
};
use insight_map_loader::service::notice::{Notice, Piece};
use insight_map_loader::watchdog::BridgeState;
use insight_map_loader::SlotState;

fn single(x: f32) -> Single {
    Single { bits: x.to_bits() }
}

fn words(n: &Notice) -> String {
    n.pieces
        .iter()
        .map(|p| match p {
            Piece::Words(s) => s.clone(),
            Piece::Plain(_, places) => format!("<{places}>"),
            Piece::Signed(_, places) => format!("<+{places}>"),
        })
        .collect()
}

fn status(root: &str, persistent: bool) -> PuckStatus {
    let mut st = PuckStatus::default();
    st.reachable = true;
    st.tracking = "6DOF".into();
    st.tracking_valid = true;
    st.battery_pct = 64;
    st.map_root = root.into();
    st.map_persistent = persistent;
    st
}

fn row(ip: &str, device: u8, root: &str, persistent: bool) -> FleetRow {
    FleetRow { ip: ip.into(), device, status: status(root, persistent) }
}

/// The shared map is the one most pucks are on; a tie goes to the later root.
#[test]
fn the_shared_map_is_the_common_one() {
    let rows = vec![
        row("a", 0, "r1", true),
        row("b", 1, "r2", true),
        row("c", 2, "r1", true),
        row("d", 3, "r3", false),
    ];
    assert_eq!(shared_root(&rows).unwrap(), "r1");
    assert_eq!(shared_root(&rows[..2].iter().map(copy).collect()).unwrap(), "r2");
    assert!(shared_root(&vec![row("d", 3, "r3", false)]).is_none());
}

fn copy(r: &FleetRow) -> FleetRow {
    FleetRow { ip: r.ip.clone(), device: r.device, status: r.status.clone() }
}

#[test]
fn the_banner_says_whether_the_fleet_is_colocated() {
    let rows = vec![row("a", 0, "0123456789", true), row("b", 1, "0123456789", true)];
    let (s, tone) = banner(&rows, Some("0123456789"));
    assert_eq!(s, "Colocated: all 2 pucks on shared map 01234567 — no transforms applied");
    assert_eq!(tone, Tone::Fine);
    let mixed = vec![row("a", 0, "0123456789", true), row("b", 1, "x", true)];
    let (s, tone) = banner(&mixed, Some("0123456789"));
    assert_eq!(s, "Colocated mode: 1/2 pucks on map 01234567 — the rest are NOT aligned");
    assert_eq!(tone, Tone::Bad);
    assert_eq!(banner(&mixed, None).1, Tone::Warn);
    let alone = vec![row("a", 0, "r", true)];
    assert_eq!(banner(&alone, Some("r")).1, Tone::Bad, "one puck shares nothing");
}

#[test]
fn roles_are_read_from_the_live_roster() {
    let pucks = [
        PuckCfg { ip: "a".into(), device: 3, id: None },
        PuckCfg { ip: "b".into(), device: 1, id: None },
    ];
    let roles = live_roles(&pucks);
    assert_eq!(role_of(&row("a", 0, "", false), &roles), 3);
    assert_eq!(role_of(&row("z", 7, "", false), &roles), 7);
    assert!(taken(&roles, "a", 1) && !taken(&roles, "b", 1) && !taken(&roles, "a", 9));
    assert_eq!(role_choice(Device::Chest, true), "Chest (taken)");
    assert_eq!(role_choice(Device::Chest, false), "Chest");
    assert_eq!(role_title(1), "Left foot");
    assert_eq!(role_title(99), "?");
    assert_eq!(row_title("1.2.3.4", Device::Chest), "1.2.3.4  (chest)");
    assert_eq!(identify_hint(2), "identify: flashes green, 3 time(s)");
}

#[test]
fn a_row_tells_what_the_puck_does() {
    let slots = vec![(Device::LeftFoot, SlotState::Live), (Device::Chest, SlotState::Stale)];
    assert_eq!(
        offline_line(&slots, 1),
        ("streaming · adb offline (reconnecting…)", Tone::Warn)
    );
    assert_eq!(offline_line(&slots, 3), ("unreachable", Tone::Bad));
    assert_eq!(offline_line(&slots, 99), ("unreachable", Tone::Bad));
    let mut st = status("0123456789", true);
    assert_eq!(tracking_line(&st), "6DOF   battery 64%");
    st.tracking_valid = false;
    assert_eq!(tracking_line(&st), "6DOF INVALID   battery 64%");
    assert_eq!(tracker_line(&st), "tracker DOWN");
    st.tracker_running = true;
    assert_eq!(tracker_line(&st), "tracker up");
    assert_eq!(
        map_line(&st, Some("0123456789")),
        ("colocated — shared map 01234567".to_string(), Tone::Fine)
    );
    assert_eq!(map_line(&st, None).0, "map 01234567 — DIFFERENT map from the fleet");
    assert_eq!(map_line(&status("r", false), Some("r")).0, "map r TRANSIENT — not colocated");
    assert_eq!(map_line(&status("", true), Some("")), ("map: no context yet".to_string(), Tone::Warn));
}

#[test]
fn a_map_is_offered_where_it_can_be_made() {
    assert_eq!(create_offer(&status("r", true), false), CreateOffer::Nothing);
    assert_eq!(create_offer(&status("", false), false), CreateOffer::Offer(true));
    assert_eq!(create_offer(&status("", false), true), CreateOffer::Offer(false));
    assert_eq!(create_offer(&PuckStatus::default(), false), CreateOffer::WearFirst);
}

#[test]
fn a_map_is_shared_from_a_puck_that_has_one() {
    let mut gone = row("e", 4, "r1", true);
    gone.status.reachable = false;
    let rows = vec![
        row("a", 0, "", false),
        row("b", 1, "r2", true),
        row("c", 2, "r1", true),
        gone,
    ];
    assert_eq!(sources(&rows), vec![1, 2]);
    assert_eq!(map_source(&rows, Some("c"), Some("r2")).unwrap(), "c");
    assert_eq!(map_source(&rows, Some("a"), Some("r1")).unwrap(), "c");
    assert_eq!(map_source(&rows, None, Some("none")).unwrap(), "b");
    assert!(map_source(&vec![row("a", 0, "", false)], Some("a"), None).is_none());
    assert_eq!(targets(&rows, "b"), vec!["a", "c", "e"]);
    assert_eq!(share_label(3), "⇄ Share map to 3 puck(s)");
}

#[test]
fn jobs_and_bridges_are_marked() {
    assert_eq!(job_mark(JobState::Done), ("✔", Tone::Fine));
    assert_eq!(job_mark(JobState::Failed), ("✖", Tone::Bad));
    assert_eq!(job_mark(JobState::Cancelled), ("–", Tone::Muted));
    assert_eq!(job_mark(JobState::Running), ("…", Tone::Busy));
    let mut s = JobStep::new("pull");
    assert_eq!(step_line(&s), ("· pull".to_string(), Tone::Faint));
    s.state = StepState::Failed;
    s.detail = "no route".into();
    assert_eq!(step_line(&s), ("✖ pull  — no route".to_string(), Tone::Bad));
    let (n, tone) = bridge_line(BridgeState::Good, single(3.0));
    assert_eq!((words(&n), tone), ("bridge ok (<+1>°)".to_string(), Tone::Muted));
    assert_eq!(words(&bridge_line(BridgeState::Suspect, single(0.0)).0), "bridge STALE");
}

#[test]
fn slots_are_listed_with_what_is_wrong() {
    let line = |st: SlotState| slot_line(Device::Chest, st, single(4.0), single(72.0));
    let (n, tone) = line(SlotState::Live).unwrap();
    assert_eq!((words(&n), tone), ("chest <0> Hz <0> ms".to_string(), Tone::Role));
    assert_eq!(words(&line(SlotState::NotTracking).unwrap().0), "chest NO-TRACK");
    assert_eq!(words(&line(SlotState::Stale).unwrap().0), "chest STALE");
    assert!(line(SlotState::Absent).is_none());
    assert!(unclaimed_line(&Vec::new()).is_none());
    assert_eq!(
        unclaimed_line(&vec![104, 105]).unwrap(),
        "⚠ unclaimed puck id(s) 104, 105 — add to insight-map-loader.json"
    );
    assert_eq!(emitted_line(12, "h:1"), "out 12 pkts → h:1");
    assert_eq!((repaint_after(true), repaint_after(false)), (33, 100));
}

/// A trail grows with movement and never beyond its bound.
#[test]
fn trails_follow_movement() {
    let mut t = Trails::new();
    let z = single(0.0);
    assert!(t.newest(1).is_none() && t.moved(1, z));
    t.extend(1, [z; 3], z);
    assert!(!t.moved(1, z) && t.moved(1, single(0.1)));
    t.extend(1, [single(9.0), z, z], z);
    assert_eq!(t.points(1).len(), 1, "it did not move");
    for i in 0..TRAIL + 5 {
        t.extend(1, [single(i as f32), z, z], single(0.1));
    }
    assert_eq!(t.points(1).len(), TRAIL);
    assert_eq!(t.newest(1).unwrap()[0], single((TRAIL + 4) as f32));
    assert_eq!(t.points(1)[0][0], single(5.0));
    assert!(t.points(2).is_empty());
}
