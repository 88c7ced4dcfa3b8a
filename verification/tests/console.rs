use insight_map_loader::config::PuckCfg;
use insight_map_loader::console::{
    command, config_path, granted_line, heard_line, identify_line, mapdb_line, measured_line,
    new_events, provisioned, run_line, status_line, unmeasured_line, up_line, Command,
    Provisioning, ProvisionStep, UpResult,
};
use insight_map_loader::fleet::{MapdbInfo, PuckStatus};
use insight_map_loader::ieee::Single;
use insight_map_loader::mpt1::{Pose, SourcePacket};
use insight_map_loader::service::notice::{Notice, Piece};
use insight_map_loader::text;
use insight_map_loader::{Device, Sample, SlotState};

fn single(x: f32) -> Single {
    Single { bits: x.to_bits() }
}

fn words(n: &Notice) -> String {
    n.pieces
        .iter()
        .map(|p| match p {
            Piece::Words(s) => s.clone(),
            Piece::Plain(_, places) => format!("<{places}>"),
            Piece::Signed(_, places) => format!("<+{places}>"),
        })
        .collect()
}

fn args(a: &[&str]) -> Vec<String> {
    a.iter().map(|s| s.to_string()).collect()
}

fn puck(ip: &str, device: u8, id: Option<u8>) -> PuckCfg {
    PuckCfg { ip: ip.into(), device, id }
}

#[test]
fn commands_are_the_first_word() {
    assert_eq!(command(&args(&["x", "status"])), Command::Status);
    assert_eq!(command(&args(&["x", "up"])), Command::Up);
    assert_eq!(command(&args(&["x", "bridge"])), Command::Bridge);
    assert_eq!(command(&args(&["x", "run"])), Command::Run);
    assert_eq!(command(&args(&["x", "identify"])), Command::Identify);
    assert_eq!(command(&args(&["x", "provision"])), Command::Provision);
    assert_eq!(command(&args(&["x", "mapdb"])), Command::Mapdb);
    assert_eq!(command(&args(&["x", "fly"])), Command::Usage);
    assert_eq!(command(&args(&["x"])), Command::Usage);
    assert_eq!(config_path(&args(&["x", "run"])), "insight-map-loader.json");
    assert_eq!(config_path(&args(&["x", "run", "--config", "c.json"])), "c.json");
    assert_eq!(config_path(&args(&["x", "--config"])), "insight-map-loader.json");
}

fn status() -> PuckStatus {
    let mut st = PuckStatus::default();
    st.reachable = true;
    st.tracking = "6DOF".into();
    st.tracking_valid = true;
    st.battery_pct = 7;
    st.tracker_running = true;
    st.guardian_disabled = true;
    st
}

#[test]
fn a_puck_fits_on_a_line() {
    assert_eq!(
        status_line("1.2.3.4", 1, &status()),
        "1.2.3.4         dev1 6DOF batt   7%  tracker up  guardian-off true"
    );
    let mut st = status();
    st.tracking_valid = false;
    st.tracker_running = false;
    st.guardian_disabled = false;
    st.vpn_trap = true;
    st.battery_pct = 100;
    assert_eq!(
        status_line("1.2.3.4", 1, &st),
        "1.2.3.4         dev1 6DOF INVALID batt 100%  tracker DOWN  guardian-off false  VPN-TRAP: \
         packets are being eaten"
    );
    assert_eq!(
        status_line("1.2.3.4", 1, &PuckStatus::default()),
        "1.2.3.4         UNREACHABLE (adb connect 1.2.3.4:5555?)"
    );
    assert_eq!(identify_line("1.2.3.4", 0), "1.2.3.4         dev0 blinking cyan");
}

#[test]
fn a_map_fits_on_a_line() {
    let info = |files: usize, mtime_unix: i64| Ok(MapdbInfo { files, bytes: 4096, mtime_unix });
    let mut st = status();
    st.map_root = "0123456789".into();
    st.map_persistent = true;
    assert_eq!(
        mapdb_line("1.2.3.4", &st, &info(42, 90), 100),
        "1.2.3.4           42 files      4 KB  written 10s ago  root 0123456789 (persistent)"
    );
    assert_eq!(
        mapdb_line("1.2.3.4", &st, &info(1, 0), 100),
        "1.2.3.4            1 files      4 KB  written ?  root 0123456789 (persistent)"
    );
    assert_eq!(
        mapdb_line("1.2.3.4", &st, &info(0, 0), 100),
        "1.2.3.4          mapdb EMPTY   context 01234567 (persistent) -- no persistent map to share"
    );
    assert_eq!(
        mapdb_line("1.2.3.4", &st, &Err("adb timed out".to_string()), 100),
        "1.2.3.4          ERROR adb timed out"
    );
    assert_eq!(
        mapdb_line("1.2.3.4", &PuckStatus::default(), &info(0, 0), 100),
        "1.2.3.4          unreachable"
    );
}

#[test]
fn trackers_are_reported_as_they_come_up() {
    let p = puck("1.2.3.4", 1, Some(104));
    assert_eq!(up_line(&p, &UpResult::NotConnected), "1.2.3.4         adb connect failed");
    assert_eq!(
        up_line(&p, &UpResult::Launched),
        "1.2.3.4         tracker configured (src=104, role=1) and launched"
    );
    assert_eq!(
        up_line(&p, &UpResult::Failed("x".into())),
        "1.2.3.4         configure failed: x"
    );
}

#[test]
fn a_measured_bridge_says_when_it_is_unstable() {
    let line = |spread: f32| words(&measured_line(9, single(1.0), single(spread), single(4.0)));
    assert_eq!(line(2.0), "9 pairs, yaw <+2>°, spread <2>° / <0> mm");
    assert_eq!(line(2.1), "9 pairs, yaw <+2>°, spread <2>° / <0> mm  UNSTABLE — was it moving?");
    assert_eq!(unmeasured_line(2), "FAILED — 2 usable pairs (tracker up? 6DOF?)");
    assert_eq!(new_events(3, 3), None);
    assert_eq!(new_events(5, 3), Some(3));
    assert_eq!(new_events(1, 8), Some(1));
    assert_eq!(new_events(8, 8), None, "a full list stays as long as it is");
}

#[test]
fn a_run_is_told_on_one_line() {
    let z = single(0.0);
    let n = run_line(
        42,
        &vec![(Device::Chest, [z; 3])],
        &vec![104],
        &vec![(Device::Waist, SlotState::NotTracking), (Device::LeftFoot, SlotState::Stale)],
        Some(z),
        true,
    );
    assert_eq!(
        words(&n),
        "\n     42 pkts out  chest:(<+2>,<+2>,<+2>)  [UNCLAIMED id 104 — add it to the config]  \
         waist:NO-TRACK  left_foot:STALE  sep <3> m  [DRIFTED]"
    );
    let quiet = run_line(0, &vec![], &vec![], &vec![(Device::Chest, SlotState::Live)], None, false);
    assert_eq!(words(&quiet), "\n      0 pkts out");
}

#[test]
fn what_is_heard_is_listed_by_source() {
    let z = Pose::identity().p;
    let s = Sample {
        packet: SourcePacket {
            src: 104,
            valid: true,
            battery_pct: 0,
            charging: false,
            t_ns: 0,
            pose: Pose::identity(),
            vel: z,
            angvel: z,
        },
        arrived: 0,
    };
    let ms = single(5.0);
    assert_eq!(
        words(&heard_line(104, SlotState::Live, Some(s), ms)),
        "  src104=(<+2>,<+2>,<+2>) <0>ms"
    );
    assert_eq!(words(&heard_line(3, SlotState::Absent, None, ms)), "  chest=absent");
    assert_eq!(words(&heard_line(3, SlotState::Stale, None, ms)), "  chest=STALE");
    assert_eq!(words(&heard_line(3, SlotState::NotTracking, None, ms)), "  chest=no-track");
}

/// Ids are recorded before they are pushed, and one that a puck took goes to no other.
#[test]
fn pucks_are_provisioned_with_distinct_ids() {
    let pucks = [puck("a", 0, None), puck("b", 1, Some(100)), puck("c", 2, None)];
    let mut p = Provisioning::start(&pucks);
    assert_eq!(p.heading(), "assigning stable ids to 2 puck(s) — one tracker restart each\n");
    let first = p.next();
    assert!(matches!(&first, ProvisionStep::Record(ip, 101) if ip == "a"));
    assert_eq!(
        p.pushed(101, &Ok(())),
        "  a               id 101 assigned; role is now host-side only"
    );
    assert!(matches!(p.next(), ProvisionStep::Record(ip, 102) if ip == "c"));
    assert_eq!(
        p.pushed(102, &Err("gone".into())),
        "  c               id 102 recorded but the puck push failed: gone"
    );
    assert!(matches!(p.next(), ProvisionStep::Done));

    let mut p = Provisioning::start(&pucks[..1]);
    assert!(matches!(p.next(), ProvisionStep::Record(..)));
    assert_eq!(p.not_recorded(100, "taken"), "  a               could not record id 100: taken");
    assert!(matches!(p.next(), ProvisionStep::Done));

    let mut p = Provisioning::start(&pucks);
    p.next();
    p.pushed(101, &Err("gone".into()));
    assert!(matches!(p.next(), ProvisionStep::Record(ip, 101) if ip == "c"), "101 was not taken");

    let none = Provisioning::start(&pucks[1..2]);
    assert_eq!(none.heading(), "every puck already has a stable id\n");

    let mut full: Vec<PuckCfg> = (100..=255).map(|i| puck(&format!("p{i}"), 0, Some(i))).collect();
    full.push(puck("last", 0, None));
    let mut p = Provisioning::start(&full);
    assert!(matches!(
        p.next(),
        ProvisionStep::Say(s) if s == "  last            no free id left (all 100..255 are taken)"
    ));
    assert!(matches!(p.next(), ProvisionStep::Done));
}

#[test]
fn a_grant_is_reported_with_whether_it_stuck() {
    assert_eq!(
        granted_line("a", &Ok(true)),
        ("  a               ready — will stream after every boot".to_string(), true)
    );
    assert_eq!(
        granted_line("a", &Ok(false)),
        ("  a               FAILED — appop or guardian prop did not stick".to_string(), false)
    );
    assert_eq!(granted_line("a", &Err("x".into())), ("  a               error: x".to_string(), false));
    assert!(provisioned(true).contains("Power-cycle a puck"));
    assert!(provisioned(false).contains("not provisioned"));
}

#[test]
fn words_and_numbers_are_read_and_written() {
    assert_eq!(text::find("abcabc", "ca"), Some(2));
    assert_eq!(text::rfind("abcabc", "bc"), Some(4));
    assert_eq!(text::find("abc", ""), Some(0));
    assert_eq!(text::trim(" \t a b\u{a0}\n"), "a b");
    assert_eq!(text::split("a,,b,", ","), vec!["a", "", "b", ""]);
    assert_eq!(text::parse_unsigned("255", 255), Some(255));
    assert_eq!(text::parse_unsigned("+7", 255), Some(7));
    assert_eq!(text::parse_unsigned("256", 255), None);
    assert_eq!(text::parse_unsigned("-1", 255), None);
    assert_eq!(text::parse_unsigned("", 255), None);
    assert_eq!(text::parse_signed("-12", 127), Some(-12));
    assert_eq!(text::signed_decimal(i64::MIN), "-9223372036854775808");
    assert_eq!(text::decimal(0), "0");
    assert_eq!(text::hex(0xbeef, 8), "0000BEEF");
    assert_eq!(text::first_word("  two words"), "two");
    assert_eq!(text::shorten("héllo", 2), "hé");
    assert_eq!(text::fill_before("é", 3), "  é");
    assert_eq!(text::fill_behind("abcd", 3), "abcd");
    assert_eq!(text::list(&vec![1, 2]), "1, 2");
    assert_eq!(text::list(&vec![]), "");
    assert!(text::after("b", "a") && text::after("ab", "a") && !text::after("a", "a"));
}
