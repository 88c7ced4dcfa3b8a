use insight_map_loader::fleet::{
    adb_raw, blink, capture_counter, checked_command, connect, dumpsys_pose, ensure_root,
    fields_after, guardian_enabled, identify, local_mapdata_count, mapdb_info, pull_dir, push_dir,
    says_root, serial, shell_checked, short_root, slot_led_rgb, snapshot_age_secs,
    snapshot_request, stats_request, status, world_pose, FleetError, PuckStatus, RootStage,
};
use insight_map_loader::fleet::script::{
    autostart_stuck, configure_tracker, guardian_down, guardian_up, provision_autostart,
    restart_trackingservice, start_tracker, Line,
};
use insight_map_loader::ieee::Single;
use insight_map_loader::mpt1::MAX_DEVICES;

const HEALTHY: &str = "  Tracking Level: 6DOF  Valid: Yes\n@@\n4711\n@@\n  level: 87\n@@\n1\n@@\n0\n@@\n\
Vega Map Context: topNodeUid 0a1b2c3d-4e5f-6071, timeCount = 3 (persistent)\n";

fn single(x: f32) -> Single {
    Single { bits: x.to_bits() }
}

/// What a healthy puck reports is read field by field, with the whole map root.
#[test]
fn a_healthy_status_is_read_whole() {
    let st = status(Some(HEALTHY));
    assert!(st.reachable);
    assert_eq!(st.tracking, "6DOF");
    assert!(st.tracking_valid);
    assert!(st.tracker_running);
    assert_eq!(st.battery_pct, 87);
    assert!(st.guardian_disabled);
    assert!(!st.vpn_trap);
    assert_eq!(st.map_root, "0a1b2c3d-4e5f-6071");
    assert!(st.map_persistent);
    assert!(st.tracks() && st.mapped());
    assert_eq!(short_root(&st.map_root), "0a1b2c3d");
}

#[test]
fn a_silent_puck_is_unreachable() {
    assert!(!status(None).reachable);
    assert!(!status(Some("  \n ")).reachable);
    assert_eq!(PuckStatus::default().battery_pct, 0);
}

#[test]
fn what_a_status_leaves_out_reads_as_nothing() {
    let st = status(Some("Tracking Level: 0DOF Valid: No\n@@\n@@\nlevel: low@@0@@1\n@@"));
    assert!(st.reachable);
    assert_eq!(st.tracking, "0DOF");
    assert!(!st.tracking_valid && !st.tracks());
    assert!(!st.tracker_running);
    assert_eq!(st.battery_pct, 0);
    assert!(!st.guardian_disabled);
    assert!(st.vpn_trap, "a route through the tunnel eats every packet");
    assert_eq!(st.map_root, "");
    assert!(!st.mapped());

    let short = status(Some("nothing to see"));
    assert!(short.reachable);
    assert!(!short.vpn_trap && !short.tracker_running);
}

#[test]
fn a_transient_context_is_no_map() {
    let st = status(Some("@@@@@@@@@@Vega Map Context: topNodeUid abc def (transient)"));
    assert_eq!(st.map_root, "abc");
    assert!(!st.map_persistent && !st.mapped());
}

/// The remote exit status is carried in band, behind the last marker.
#[test]
fn the_remote_status_is_real() {
    assert_eq!(checked_command("ls"), "ls; echo \"@@RC:$?\"");
    assert_eq!(shell_checked("a\nb\n@@RC:0\n").unwrap(), "a\nb\n");
    assert_eq!(shell_checked("@@RC:1 @@RC:0").unwrap(), "@@RC:1 ");
    assert_eq!(
        shell_checked("cp: no such file\n@@RC:1\n").unwrap_err().message(),
        "command failed on puck (exit 1): cp: no such file"
    );
    assert_eq!(
        shell_checked(" hung up ").unwrap_err().message(),
        "command failed on puck (exit -1): no status trailer; output was: hung up"
    );
    assert!(matches!(
        shell_checked("x@@RC:what"),
        Err(FleetError::Remote { code: -1, .. })
    ));
}

#[test]
fn adb_keeps_the_reason_it_failed() {
    let raw = |code: Option<i32>| adb_raw(code, "out".into(), " no device \n".into(), 20);
    assert_eq!(raw(Some(0)).unwrap(), "out");
    assert_eq!(raw(Some(124)).unwrap_err().message(), "adb timed out after 20s");
    assert_eq!(raw(None).unwrap_err().message(), "adb timed out after 20s");
    assert_eq!(raw(Some(1)).unwrap_err().message(), "adb failed (exit 1): no device");
    assert_eq!(FleetError::Spawn("gone".into()).message(), "could not run adb: gone");
    assert_eq!(FleetError::Precondition("not root".into()).message(), "not root");
}

/// Root is asked for, acquired once, and asked for once more.
#[test]
fn root_is_acquired_at_most_once() {
    assert!(says_root(Some("0\n")) && !says_root(Some("2000")) && !says_root(None));
    assert_eq!(ensure_root(RootStage::Ask, Some("0\n")), RootStage::Known(true));
    let restarted = ensure_root(RootStage::Ask, Some("2000"));
    assert_eq!(restarted, RootStage::Restart);
    assert_eq!(ensure_root(restarted, Some("0")), RootStage::Known(true));
    assert_eq!(ensure_root(restarted, None), RootStage::Known(false));
    assert_eq!(ensure_root(RootStage::Known(false), Some("0")), RootStage::Known(false));
}

#[test]
fn connecting_again_is_no_failure() {
    assert!(connect("already connected to 1.2.3.4:5555"));
    assert!(!connect("failed to resolve host"));
    assert_eq!(serial("1.2.3.4"), "1.2.3.4:5555");
}

#[test]
fn a_world_pose_needs_valid_tracking() {
    let reply = "  Hmd: 6DOF Valid: Yes\n rot=(0.0, 0.5 ,0.0,0.5)\n trans=(1.00,2.00,-3.00)";
    let (rot, tr) = dumpsys_pose(Some(reply)).unwrap();
    let read = |v: &Vec<&str>| -> Vec<Single> {
        v.iter().filter_map(|x| x.trim().parse::<f32>().ok()).map(single).collect()
    };
    let p = world_pose(&read(&rot), &read(&tr)).unwrap();
    assert_eq!(p.p, [single(1.0), single(2.0), single(-3.0)]);
    assert_eq!(p.q, [single(0.0), single(0.5), single(0.0), single(0.5)]);
    assert!(world_pose(&read(&tr), &read(&tr)).is_none());
    assert!(dumpsys_pose(Some("3DOF Valid: Yes rot=(0,0,0,1) trans=(0,0,0)")).is_none());
    assert!(dumpsys_pose(Some("6DOF Valid: No rot=(0,0,0,1) trans=(0,0,0)")).is_none());
    assert!(dumpsys_pose(Some("6DOF Valid: Yes rot=(0,0,0,1")).is_none());
    assert!(dumpsys_pose(None).is_none());
    assert!(fields_after("x=(1,2", "x=(").is_none());
}

/// Seven colours cannot name eleven roles; the colour with the count can.
#[test]
fn colour_and_count_identify_a_role() {
    assert_eq!(slot_led_rgb(0), (0, 255, 255, "cyan"));
    assert_eq!(slot_led_rgb(6), (255, 255, 255, "white"));
    assert_eq!(slot_led_rgb(7), slot_led_rgb(0));
    let scripts: Vec<String> = (0..MAX_DEVICES as u8).map(identify).collect();
    for i in 0..scripts.len() {
        assert!(scripts[i].contains(&format!("[ $i -lt {} ]", i + 1)));
        for j in 0..i {
            assert_ne!(scripts[i], scripts[j]);
        }
    }
}

#[test]
fn a_blink_lasts_as_long_as_it_is_asked_to() {
    assert!(blink(1, 2, 3, 5).contains(
        "while [ $i -lt 10 ]; do            echo 1 > $L/red/brightness; echo 2 > \
         $L/green/brightness; echo 3 > $L/blue/brightness;"
    ));
    assert!(blink(1, 2, 3, 0).contains("while [ $i -lt 2 ]"));
}

#[test]
fn the_capture_counter_is_the_skipped_one() {
    assert_eq!(
        capture_counter("HTTP/1.0 200 OK\r\n\r\n{\"frames\":7,\"skipped\":1234,\"x\":1}"),
        Some(1234)
    );
    assert_eq!(capture_counter("{\"skipped\":56"), Some(56));
    assert_eq!(capture_counter("{\"skipped\": 5}"), None);
    assert_eq!(capture_counter("{\"frames\":7}"), None);
    assert_eq!(
        stats_request("1.2.3.4"),
        "GET /stats HTTP/1.0\r\nHost: 1.2.3.4\r\nConnection: close\r\n\r\n"
    );
}

#[test]
fn a_snapshot_tells_when_it_was_captured() {
    let head = "HTTP/1.0 200 OK\r\nX-Capture-Boot-Ns:  123456\r\n\r\n";
    assert_eq!(snapshot_age_secs(head, "99.50 12.0\n"), Some(("123456", "99.50")));
    assert_eq!(snapshot_age_secs(head, " \n"), None);
    assert_eq!(snapshot_age_secs("HTTP/1.0 200 OK", "99.50"), None);
    assert!(snapshot_request("a").starts_with("GET /snapshot HTTP/1.0\r\nHost: a\r\n"));
}

#[test]
fn a_map_is_described_in_three_lines() {
    let i = mapdb_info(" 42\n3000\n1700000000\n");
    assert_eq!((i.files, i.bytes, i.mtime_unix), (42, 3000 * 1024, 1_700_000_000));
    assert!(!i.is_empty());
    let none = mapdb_info("0\n");
    assert_eq!((none.files, none.bytes, none.mtime_unix), (0, 0, 0));
    assert!(none.is_empty());
    assert_eq!(mapdb_info("3\ny\n-5").mtime_unix, -5);
}

#[test]
fn only_map_files_are_counted() {
    let names = ["a.mapdata", "b.mapdata.tmp", ".mapdata", "mapdata", "c.d.mapdata"];
    let names: Vec<String> = names.iter().map(|s| s.to_string()).collect();
    assert_eq!(local_mapdata_count(&names), 2);
}

#[test]
fn directories_are_pushed_by_content_and_pulled_by_name() {
    assert_eq!(push_dir("/tmp/m"), "/tmp/m/.");
    assert_eq!(pull_dir("/vision/insideout/mapdb"), "mapdb");
    assert_eq!(pull_dir("mapdb"), "mapdb");
    assert_eq!(pull_dir("/vision/"), "");
}

fn text_of(l: &Line) -> String {
    match l {
        Line::Say(s) => format!("say {s}"),
        Line::Plain(s) => format!("run {s}"),
        Line::Checked(s, secs) => format!("check {s} ({secs}s)"),
        Line::Sleep(ms) => format!("sleep {ms}"),
    }
}

fn texts(lines: &Vec<Line>) -> Vec<String> {
    lines.iter().map(text_of).collect()
}

#[test]
fn the_tracker_is_configured_and_then_restarted() {
    let s = texts(&configure_tracker("10.0.0.1", 9001, 104));
    assert_eq!(
        s[1],
        "run printf 'host=10.0.0.1\\nport=9001\\ndevice=104\\ncontrollers=0\\n' > \
         /sdcard/Android/data/com.mapperlocalizer.questtracker/files/config.txt"
    );
    assert_eq!(s[2], "run am force-stop com.mapperlocalizer.questtracker");
    assert_eq!(s[3], "sleep 300");
    assert_eq!(s[4..], texts(&start_tracker())[..]);
    assert_eq!(s.len(), 7);
}

/// Tracking is restarted after guardian is up, or guardian never attaches to it.
#[test]
fn tracking_follows_guardian() {
    let s = texts(&guardian_up());
    let service = s.iter().position(|l| l.contains("start-foreground-service")).unwrap();
    let stop = s.iter().position(|l| l.contains("check stop trackingservice")).unwrap();
    let start = s.iter().position(|l| l.contains("check start trackingservice")).unwrap();
    assert!(service < stop && stop < start);
    assert_eq!(s[stop..=start], texts(&restart_trackingservice())[..]);
    let down = texts(&guardian_down());
    assert_eq!(down.last().unwrap(), "check pm disable-user --user 0 com.oculus.guardian (30s)");
}

#[test]
fn provisioning_waits_for_the_grant_to_reach_the_disk() {
    let s = texts(&provision_autostart());
    assert_eq!(s.len(), 7);
    assert_eq!(s.last().unwrap(), "sleep 45000");
    assert!(autostart_stuck("SYSTEM_ALERT_WINDOW: allow", "1\n", " 1"));
    assert!(!autostart_stuck("SYSTEM_ALERT_WINDOW: deny", "1", "1"));
    assert!(!autostart_stuck("allow", "0", "1"));
    assert!(!autostart_stuck("allow", "1", ""));
}

/// Counting no disabled package exits with 1, and says that guardian is on.
#[test]
fn guardian_that_is_on_is_answered() {
    assert!(guardian_enabled("0\n@@RC:1\n").unwrap());
    assert!(guardian_enabled("0\n@@RC:0\n").unwrap());
    assert!(!guardian_enabled("1\n@@RC:0\n").unwrap());
    let e = guardian_enabled("\n@@RC:2\n").unwrap_err();
    assert_eq!(e, FleetError::Remote { code: 2, out: "\n".into() });
    let e = guardian_enabled("2\n@@RC:1\n").unwrap_err();
    assert_eq!(e, FleetError::Remote { code: 1, out: "2\n".into() });
    assert!(guardian_enabled("0\n").is_err());
}

/// Of an empty map directory no time is given.
#[test]
fn an_empty_map_has_no_time() {
    let empty = mapdb_info("0\n4\n1700000000\n");
    assert_eq!((empty.files, empty.bytes, empty.mtime_unix), (0, 4096, 0));
    let one = mapdb_info("1\n4\n1700000000\n");
    assert_eq!((one.files, one.bytes, one.mtime_unix), (1, 4096, 1_700_000_000));
}
