use insight_map_loader::book::Book;
use insight_map_loader::config::{BridgeEntry, Config, PuckCfg};
use insight_map_loader::fleet::{MapdbInfo, PuckStatus};
use insight_map_loader::ieee::Single;
use insight_map_loader::ingest::SlotState;
use insight_map_loader::jobs::{JobQueue, JobState, StepReport, StepState};
use insight_map_loader::mpt1::Device;
use insight_map_loader::service::control::{Runner, Service, Work};
use insight_map_loader::service::create::{Create, CreateReply, CreateStage};
use insight_map_loader::service::role::{Role, RoleReply, RoleStage};
use insight_map_loader::service::share::{
    fresh_bridges, mapdb_age_secs, share_map, Share, ShareAsk, ShareReply, ShareStage,
};
use insight_map_loader::service::turn::Turn;
use insight_map_loader::service::{
    kept_rates, listen_refusal, map_backup_dir, output_refusal, push_event, ServiceView,
};
use insight_map_loader::watchdog::BridgeState;

const S: u64 = 1_000_000_000;

fn puck(ip: &str, device: u8, id: Option<u8>) -> PuckCfg {
    PuckCfg { ip: ip.into(), device, id }
}

fn service(pucks: Vec<PuckCfg>) -> Service {
    let cfg = Config::with_defaults(None, None, None, "10.0.0.1".into(), pucks);
    Service::start(&cfg, "/backups".into())
}

fn tracking(root: &str, persistent: bool) -> PuckStatus {
    let mut st = PuckStatus::default();
    st.reachable = true;
    st.tracking = "6DOF".into();
    st.tracking_valid = true;
    st.battery_pct = 80;
    st.map_root = root.into();
    st.map_persistent = persistent;
    st
}

fn told(t: &Turn) -> Vec<String> {
    t.reports
        .iter()
        .map(|r| match r {
            StepReport::Begin(i) => format!("begin {i}"),
            StepReport::Progress(s) => format!("... {s}"),
            StepReport::FinishOk(s) => format!("ok {s}"),
            StepReport::FinishSkipped(s) => format!("skip {s}"),
            StepReport::Cancel => "cancel".to_string(),
        })
        .collect()
}

fn failure(t: &Turn) -> String {
    match &t.result {
        Some(Err(e)) => e.clone(),
        other => panic!("expected a failure, got {other:?}"),
    }
}

/// Nothing is taken before someone carries jobs out, and a number is used up
/// either way.
#[test]
fn jobs_need_a_runner() {
    let mut s = service(vec![puck("a", 0, None)]);
    assert!(s.take_rebuild(), "the transforms are to be built first");
    assert!(!s.take_rebuild());
    assert_eq!(s.create_map("a", false).unwrap_err(), "job runner not started");
    s.runner = Runner::Gone;
    assert_eq!(s.create_map("a", false).unwrap_err(), "job runner is gone");
    s.runner = Runner::Up;
    assert_eq!(s.create_map("a", true), Ok(3));
    assert_eq!(
        s.share_map("a", vec![], false).unwrap_err(),
        "no other pucks to share with"
    );
    assert_eq!(s.share_map("a", vec!["b".into()], true), Ok(4));
    let (job, work) = s.next_job().unwrap();
    assert_eq!(job.id, 3);
    assert_eq!(job.state, JobState::Queued);
    assert!(matches!(work, Work::Create { roomscale: true, src: Some(0), .. }));
    let (job, work) = s.next_job().unwrap();
    assert_eq!(job.title, "Re-sync map from a to 1 puck(s)");
    assert_eq!(job.steps.len(), 7);
    assert_eq!(job.steps[6].name, "re-bridge (hold the pucks still)");
    assert!(matches!(work, Work::Share { force: true, .. }));
    assert!(s.next_job().is_none());
}

#[test]
fn a_role_is_refused_where_it_is_unknown_or_taken() {
    let mut s = service(vec![puck("a", 0, Some(100)), puck("b", 1, None)]);
    s.runner = Runner::Up;
    assert_eq!(
        s.set_puck_role("a", 11, "c.json").unwrap_err(),
        "device 11 is not a known role"
    );
    assert_eq!(s.set_puck_role("a", 1, "c.json").unwrap_err(), "b is already Left foot");
    assert_eq!(s.set_puck_role("a", 3, "c.json"), Ok(1));
    let (job, work) = s.next_job().unwrap();
    assert_eq!(job.title, "Set a to Chest");
    let names: Vec<&str> = job.steps.iter().map(|x| x.name.as_str()).collect();
    assert_eq!(
        names,
        vec![
            "save the config",
            "apply to the running service",
            "reconfigure a and restart its tracker",
            "confirm it streams on the new role",
        ]
    );
    assert!(matches!(work, Work::Role { role: Device::Chest, .. }));
}

/// A role applied changes the roster, its number and the transforms.
#[test]
fn a_role_applied_is_noticed() {
    let mut s = service(vec![puck("a", 0, Some(100)), puck("b", 1, None)]);
    s.take_rebuild();
    assert_eq!(s.apply_role("a", 3), Some(100));
    assert_eq!(s.roster_gen, 1);
    assert!(s.take_rebuild());
    assert_eq!(s.roster()[0].device, 3);
    assert_eq!(s.roster()[0].source(), 100, "the puck sends what it sent");
    assert_eq!(s.apply_role("b", 4), None);
    assert_eq!(s.apply_role("nobody", 5), None);
    assert_eq!(s.roster()[1].device, 4);
}

#[test]
fn requests_are_answered_once() {
    let mut s = service(vec![]);
    s.request_bridge();
    assert!(s.take_bridge_now() && !s.take_bridge_now());
    s.request_realign();
    assert!(s.take_realign_now() && !s.take_realign_now());
    assert!(s.ask_check("a") && !s.ask_check("a"));
    let asked = s.take_checks();
    assert!(asked.contains("a") && !asked.contains("b"));
    assert!(!s.take_checks().contains("a"));
    assert!(!s.job_running());
    s.cancel_job();
    assert!(s.jobs.cancel);
    assert_eq!(s.listen_port, 5180);
    assert_eq!(s.view().emitted, 0);
}

#[test]
fn only_the_latest_events_are_kept() {
    let mut events = Vec::new();
    for i in 0..10 {
        push_event(&mut events, format!("e{i}"));
    }
    assert_eq!(events.len(), 8);
    assert_eq!(events[0], "e2");
    assert_eq!(events[7], "e9");
}

#[test]
fn drift_is_told_once() {
    let mut v = ServiceView::new();
    assert!(v.flag_drift() && !v.flag_drift());
    let zero = Single { bits: 0 };
    v.bridges = vec![
        ("a".into(), BridgeState::Good, zero),
        ("b".into(), BridgeState::Missing, zero),
    ];
    v.show_solving("b");
    assert_eq!(v.bridges[0].1, BridgeState::Good);
    assert_eq!(v.bridges[1].1, BridgeState::Solving);
}

#[test]
fn backups_go_where_the_operator_says() {
    assert_eq!(map_backup_dir(Some("/x"), Some("/home/u"), "n"), "/x");
    assert_eq!(map_backup_dir(None, Some("/home/u"), "n"), "/home/u/n");
    assert_eq!(map_backup_dir(None, Some("/"), "n"), "/n");
    assert_eq!(map_backup_dir(None, None, "n"), "n");
    assert_eq!(listen_refusal("0.0.0.0:1", "in use"), "cannot listen on 0.0.0.0:1: in use");
    assert_eq!(output_refusal("x", "bad"), "output x: bad");
}

/// A map counts as created when poses stream again.
#[test]
fn a_map_is_created_when_the_stream_is_back() {
    let (mut c, first) = Create::start("a".into(), Some(104), true);
    assert!(matches!(first, StepReport::Begin(0)));
    assert_eq!(c.stamp(), 104);
    let t = c.hear(&CreateReply::Status(tracking("", false)), 0);
    assert_eq!(told(&t), vec!["ok 6DOF valid, battery 80%", "begin 1"]);
    let t = c.hear(&CreateReply::Stopped(Ok(())), 0);
    assert_eq!(told(&t), vec!["ok tracker app stopped", "begin 2"]);
    let t = c.hear(&CreateReply::Note("enabling guardian".into()), 0);
    assert_eq!(told(&t), vec!["... enabling guardian"]);
    let t = c.hear(&CreateReply::Minted(Ok("0123456789".into())), 0);
    assert_eq!(told(&t), vec!["ok new persistent map 01234567", "begin 3"]);
    let t = c.hear(&CreateReply::Restarted(Ok(())), 10 * S);
    assert_eq!(told(&t), vec!["ok tracker app restarted", "begin 4"]);
    assert!(c.patient(69 * S) && !c.patient(70 * S));
    let t = c.hear(&CreateReply::Streaming(false), 13 * S);
    assert_eq!(told(&t), vec!["... waiting for poses from a: 3s"]);
    let t = c.hear(&CreateReply::Streaming(true), 14 * S);
    assert_eq!(t.result, Some(Ok("map 01234567 created".into())));
    assert_eq!(c.stage, CreateStage::Over);
}

#[test]
fn creating_a_map_fails_with_a_reason() {
    let start = || Create::start("a".into(), None, true).0;
    let mut c = start();
    assert_eq!(c.stamp(), 0);
    let t = c.hear(&CreateReply::Status(PuckStatus::default()), 0);
    assert_eq!(failure(&t), "a is not reachable over adb");
    let t = start().hear(&CreateReply::Status(tracking("0123456789", true)), 0);
    assert_eq!(
        failure(&t),
        "a already has a persistent map (01234567). Share it instead — creating a second one on \
         top is untested."
    );
    let mut lost = PuckStatus::default();
    lost.reachable = true;
    let t = start().hear(&CreateReply::Status(lost), 0);
    assert_eq!(
        failure(&t),
        "a is at no tracking (valid=false). It must be WORN and tracking at 6DOF: guardian \
         refuses to place an anchor otherwise."
    );
    let mut c = start();
    c.stage = CreateStage::Stop;
    assert_eq!(
        failure(&c.hear(&CreateReply::Stopped(Err("x".into())), 0)),
        "stopping the tracker app: x"
    );
    let mut c = start();
    c.stage = CreateStage::Mint;
    let t = c.hear(&CreateReply::Minted(Err("why".into())), 0);
    assert!(t.result.is_none(), "the tracker app is started again first");
    assert_eq!(c.stage, CreateStage::Recover);
    assert_eq!(failure(&c.hear(&CreateReply::Restarted(Ok(())), 0)), "why");
    assert_eq!(c.stage, CreateStage::Over);
    let mut c = start();
    c.stage = CreateStage::Mint;
    c.hear(&CreateReply::Minted(Err("why".into())), 0);
    assert_eq!(failure(&c.hear(&CreateReply::Restarted(Err("x".into())), 0)), "why");
    let mut c = start();
    c.stage = CreateStage::Restart;
    assert_eq!(
        failure(&c.hear(&CreateReply::Restarted(Err("x".into())), 0)),
        "restarting the tracker app: x"
    );
    let mut c = start();
    c.stage = CreateStage::Prove(0);
    c.root = "0123456789".into();
    assert_eq!(
        failure(&c.hear(&CreateReply::TimeUp, 0)),
        "a created map 01234567 but is NOT streaming poses. Guardian is disabled again, so \
         relaunching the trackers should recover it."
    );
}

/// With a stable id the puck itself is left alone.
#[test]
fn a_puck_with_an_id_is_not_reconfigured() {
    let (mut r, _) = Role::start("a".into(), Device::Chest, "c.json".into(), true);
    let t = r.hear(&RoleReply::Saved(Ok(())), 0);
    assert_eq!(told(&t), vec!["ok c.json updated", "begin 1"]);
    let t = r.hear(&RoleReply::Applied(Some(100)), 5 * S);
    assert_eq!(
        told(&t),
        vec![
            "ok roster updated, transforms rebuilding",
            "begin 2",
            "ok no device change needed (puck has a stable id)",
            "begin 3",
        ]
    );
    assert_eq!(r.watch, 100);
    assert!(r.patient(49 * S) && !r.patient(50 * S));
    let t = r.hear(&RoleReply::Live(false), 7 * S);
    assert_eq!(told(&t), vec!["... waiting for a on chest: 2s"]);
    let t = r.hear(&RoleReply::Live(true), 8 * S);
    assert_eq!(t.result, Some(Ok("now Chest".into())));
}

#[test]
fn a_puck_without_an_id_is_reconfigured() {
    let (mut r, _) = Role::start("a".into(), Device::LeftFoot, "c.json".into(), true);
    r.hear(&RoleReply::Saved(Ok(())), 0);
    let t = r.hear(&RoleReply::Applied(None), 0);
    assert_eq!(told(&t), vec!["ok roster updated, transforms rebuilding", "begin 2"]);
    let t = r.hear(&RoleReply::Configured(Ok(())), 0);
    assert_eq!(
        told(&t),
        vec!["ok legacy puck: tracker reconfigured and restarted", "begin 3"]
    );
    assert_eq!(r.watch, Device::LeftFoot.id());
    let t = r.hear(&RoleReply::TimeUp, 60 * S);
    assert!(failure(&t).starts_with("a was set to Left foot but no poses arrived on that slot."));

    let (mut r, _) = Role::start("a".into(), Device::LeftFoot, "c.json".into(), false);
    assert_eq!(failure(&r.hear(&RoleReply::Saved(Err("taken".into())), 0)), "taken");
    let (mut r, _) = Role::start("a".into(), Device::LeftFoot, "c.json".into(), false);
    r.hear(&RoleReply::Saved(Ok(())), 0);
    r.hear(&RoleReply::Applied(Some(100)), 0);
    assert_eq!(r.stage, RoleStage::Configure);
    assert_eq!(
        failure(&r.hear(&RoleReply::Configured(Err("x".into())), 0)),
        "reconfiguring a: x"
    );
}

fn mapdb(files: usize, mtime: i64) -> MapdbInfo {
    MapdbInfo { files, bytes: 2048, mtime_unix: mtime }
}

fn sharing(targets: &[&str], force: bool, advise: bool) -> Share {
    let targets = targets.iter().map(|t| t.to_string()).collect();
    Share::start("src".into(), targets, force, advise).0
}

fn pulled(s: &mut Share) {
    s.hear(&ShareReply::Status(tracking("0123456789", true)), 0, 100);
    while s.ask(0) == ShareAsk::StatusOfTarget {
        s.hear(&ShareReply::Status(tracking("other", true)), 0, 100);
    }
    s.hear(&ShareReply::Info(Ok(mapdb(3, 40))), 0, 100);
    s.hear(&ShareReply::Pulled(Ok((3, "/d".into()))), 0, 100);
    s.hear(&ShareReply::Info(Ok(mapdb(3, 40))), 0, 100);
}

/// A whole run onto one target: saved first, then installed, then re-bridged.
#[test]
fn a_map_is_shared_step_by_step() {
    let mut s = sharing(&["b"], false, false);
    assert_eq!(s.ask(0), ShareAsk::StatusOfSource);
    let t = s.hear(&ShareReply::Status(tracking("0123456789", true)), 0, 100);
    assert!(told(&t).is_empty());
    let t = s.hear(&ShareReply::Info(Ok(mapdb(3, 40))), 0, 100);
    assert_eq!(
        told(&t),
        vec!["ok root 01234567 · 3 files · 2 KB · last written 60s ago", "begin 1"]
    );
    s.hear(&ShareReply::Pulled(Ok((3, "/d".into()))), 0, 100);
    let t = s.hear(&ShareReply::Info(Ok(mapdb(3, 40))), 0, 100);
    assert_eq!(told(&t), vec!["ok 3 files → /d"]);
    assert_eq!(s.ask(0), ShareAsk::StopRequested);
    s.hear(&ShareReply::Stop(false), 0, 100);
    assert_eq!(s.target().unwrap(), "b");
    let t = s.hear(&ShareReply::Status(tracking("other", true)), 0, 100);
    assert_eq!(told(&t), vec!["begin 2"]);
    assert_eq!(s.ask(0), ShareAsk::SaveTarget);
    let t = s.hear(&ShareReply::Saved(Ok(Some(("/dev".into(), "/host".into())))), 0, 100);
    assert_eq!(told(&t), vec!["ok /host · /dev", "begin 3"]);
    let t = s.hear(&ShareReply::Installed(Ok(3)), 0, 100);
    assert_eq!(told(&t), vec!["ok 3 files, SELinux label verified", "begin 4"]);
    let t = s.hear(&ShareReply::Restarted(Ok(())), 0, 100);
    assert_eq!(told(&t), vec!["ok trackingservice restarted", "begin 5"]);
    let t = s.hear(&ShareReply::Relocalized(true), 50 * S, 150);
    assert_eq!(told(&t), vec!["ok relocalized into 01234567", "begin 6"]);
    assert_eq!((s.asked, s.asked_unix), (50 * S, 150));
    assert_eq!(s.ask(139 * S), ShareAsk::CountFresh);
    assert_eq!(s.ask(140 * S), ShareAsk::TimeUp);
    let t = s.hear(&ShareReply::Fresh(0), 53 * S, 153);
    assert_eq!(told(&t), vec!["... hold the pucks STILL — 0/1 re-bridged (3s)"]);
    let t = s.hear(&ShareReply::Fresh(1), 54 * S, 154);
    assert_eq!(told(&t), vec!["ok 1 bridge(s) re-solved"]);
    assert_eq!(t.result, Some(Ok("1 puck(s) colocated on 01234567".into())));
    assert_eq!(s.ask(0), ShareAsk::Nothing);
}

#[test]
fn a_puck_on_the_map_is_skipped_unless_forced() {
    let mut s = sharing(&["b", "c"], false, true);
    pulled(&mut s);
    s.hear(&ShareReply::Stop(false), 0, 100);
    let t = s.hear(&ShareReply::Status(tracking("0123456789", true)), 0, 100);
    assert_eq!(
        told(&t),
        vec![
            "begin 2",
            "skip already on this map (use Re-sync to copy anyway)",
            "begin 3",
            "skip already on this map",
            "begin 4",
            "skip already on this map",
            "begin 5",
            "skip already on this map",
        ]
    );
    s.hear(&ShareReply::Stop(false), 0, 100);
    let t = s.hear(&ShareReply::Status(PuckStatus::default()), 0, 100);
    assert_eq!(told(&t)[1], "skip unreachable");
    assert_eq!(told(&t)[9], "skip nothing was re-mapped");
    assert_eq!(t.result, Some(Ok("0 puck(s) colocated on 01234567, 2 skipped".into())));

    let mut s = sharing(&["b"], true, false);
    pulled(&mut s);
    s.hear(&ShareReply::Stop(false), 0, 100);
    s.hear(&ShareReply::Status(tracking("0123456789", true)), 0, 100);
    assert_eq!(s.stage, ShareStage::Save);
}

/// Pucks that agree on another map are named before it is replaced.
#[test]
fn a_fleet_on_another_map_is_pointed_out() {
    let mut s = sharing(&["b", "c"], false, true);
    s.hear(&ShareReply::Status(tracking("r", true)), 0, 100);
    s.hear(&ShareReply::Status(tracking("q", true)), 0, 100);
    let t = s.hear(&ShareReply::Status(tracking("q", true)), 0, 100);
    assert_eq!(
        told(&t),
        vec![
            "... NOTE: 2 pucks already share a DIFFERENT map; sharing from src replaces it on all \
             of them. If src is the new puck, share the other way instead."
        ]
    );
}

#[test]
fn sharing_fails_with_a_reason() {
    let fresh = || sharing(&["b"], false, false);
    let mut s = fresh();
    assert_eq!(
        failure(&s.hear(&ShareReply::Status(PuckStatus::default()), 0, 100)),
        "src is not reachable over adb"
    );
    let mut s = fresh();
    assert_eq!(
        failure(&s.hear(&ShareReply::Status(tracking("r", false)), 0, 100)),
        "src has no PERSISTENT map context (it reports a transient context). Only a persistent \
         map is written to disk and can be shared — create one first."
    );
    let mut s = fresh();
    s.stage = ShareStage::Inspect;
    assert_eq!(failure(&s.hear(&ShareReply::Info(Err("adb".into())), 0, 100)), "adb");
    let mut s = fresh();
    s.stage = ShareStage::Inspect;
    assert_eq!(
        failure(&s.hear(&ShareReply::Info(Ok(mapdb(0, 0))), 0, 100)),
        "src's mapdb is empty despite a persistent context"
    );
    let mut s = fresh();
    s.stage = ShareStage::Pull;
    assert_eq!(
        failure(&s.hear(&ShareReply::Pulled(Ok((0, "/d".into()))), 0, 100)),
        "pulled 0 .mapdata files from src into /d — refusing to overwrite anything"
    );
    let mut s = fresh();
    s.stage = ShareStage::Pull;
    assert_eq!(
        failure(&s.hear(&ShareReply::Pulled(Err("x".into())), 0, 100)),
        "pulling src's map: x"
    );
    let mut s = fresh();
    s.stage = ShareStage::Recheck;
    s.before = mapdb(3, 40);
    assert_eq!(
        failure(&s.hear(&ShareReply::Info(Ok(mapdb(3, 41))), 0, 100)),
        "src rewrote its map during the pull (mtime 40 → 41); the copy may be torn — run it again"
    );
    let mut s = fresh();
    pulled(&mut s);
    assert_eq!(failure(&s.hear(&ShareReply::Stop(true), 0, 100)), "cancelled");
    let stages = [
        (ShareStage::Save, ShareReply::Saved(Err("x".into())), "backing up b: x"),
        (ShareStage::Install, ShareReply::Installed(Err("x".into())), "installing map on b: x"),
        (ShareStage::Restart, ShareReply::Restarted(Err("x".into())), "restarting tracking on b: x"),
    ];
    for (stage, reply, why) in stages {
        let mut s = fresh();
        pulled(&mut s);
        s.stage = stage;
        assert_eq!(failure(&s.hear(&reply, 0, 100)), why);
    }
    let mut s = fresh();
    pulled(&mut s);
    s.stage = ShareStage::Relocalize;
    assert!(failure(&s.hear(&ShareReply::Relocalized(false), 0, 100))
        .starts_with("b loaded the map but did not relocalize into 01234567 within 120 s."));
}

#[test]
fn bridges_may_be_finished_later() {
    let mut s = sharing(&["b"], true, false);
    pulled(&mut s);
    s.stage = ShareStage::Relocalize;
    s.hear(&ShareReply::Relocalized(true), 0, 100);
    let t = s.hear(&ShareReply::TimeUp, 90 * S, 190);
    assert_eq!(
        told(&t),
        vec!["skip 0/1 re-bridged — the watchdog will finish once the pucks are still"]
    );
    assert_eq!(t.result, Some(Ok("1 puck(s) re-synced on 01234567".into())));

    let zero = Single { bits: 0 };
    let mut b: Book<BridgeEntry> = Book::new();
    let entry = |unix_time: u64| BridgeEntry {
        yaw_deg: zero,
        t: [zero; 3],
        yaw_spread_deg: zero,
        unix_time,
    };
    b.insert("x", entry(99));
    b.insert("y", entry(100));
    b.insert("z", entry(200));
    let targets = vec!["x".to_string(), "y".to_string(), "w".to_string()];
    assert_eq!(fresh_bridges(&b, &targets, 100), 1);
    assert_eq!(fresh_bridges(&b, &targets, 99), 2);
    assert_eq!(mapdb_age_secs(40, 100), 60);
}

/// What a job reports lands on its steps.
#[test]
fn reports_land_on_the_steps_of_the_job() {
    let mut q = JobQueue::new();
    let job = share_map(&mut q, "src", &vec!["b".to_string()], false).unwrap();
    assert_eq!(job.title, "Share map from src to 1 puck(s)");
    let id = job.id;
    let mut ctx = q.start(job, S);
    let (mut s, first) = Share::start("src".into(), vec!["b".into()], false, false);
    ctx.report(&mut q, S, &first);
    let t = s.hear(&ShareReply::Status(tracking("0123456789", true)), S, 100);
    for r in &t.reports {
        ctx.report(&mut q, S, r);
    }
    let t = s.hear(&ShareReply::Info(Ok(mapdb(3, 40))), 3 * S, 100);
    for r in &t.reports {
        ctx.report(&mut q, 3 * S, r);
    }
    let steps = &q.snapshot()[0].steps;
    assert_eq!(steps[0].state, StepState::Done);
    assert_eq!(steps[0].elapsed, 2 * S);
    assert_eq!(steps[1].state, StepState::Running);
    q.finish(id, Err("pulling src's map: x".into()), 4 * S);
    let done = &q.snapshot()[0];
    assert_eq!(done.state, JobState::Failed);
    assert_eq!(done.steps[1].state, StepState::Failed);
}

#[test]
fn slots_are_published_with_their_rates() {
    let one = Single { bits: 1.0f32.to_bits() };
    let half = Single { bits: 0.5f32.to_bits() };
    let fifty = Single { bits: 50.0f32.to_bits() };
    let ten = Single { bits: 10.0f32.to_bits() };
    let mut v = ServiceView::new();
    push_event(&mut v.events, "kept".into());
    v.drifted = true;
    v.error = Some("kept too".into());
    v.bridges.push(("10.0.0.2".into(), BridgeState::Solving, one));
    let slots = vec![
        (Device::Waist, SlotState::Live, 3, None),
        (Device::LeftFoot, SlotState::Stale, 77, None),
    ];
    let rates = vec![(3, ten), (3, fifty)];
    let ages = vec![half, one];
    v.publish(
        vec![(Device::Waist, [one, half, one])],
        Some(half),
        &slots,
        &ages,
        Some(rates),
        vec![9, 200],
        41,
        2,
        Vec::new(),
    );
    assert_eq!(v.live.len(), 1);
    assert_eq!(v.live[0].1[1].bits, half.bits);
    assert_eq!(v.sep.map(|s| s.bits), Some(half.bits));
    assert_eq!(v.unknown_sources, vec![9, 200]);
    assert_eq!((v.emitted, v.n_transforms, v.jobs.len()), (41, 2, 0));
    let seen: Vec<_> =
        v.slots.iter().map(|(d, st, age, rate)| (*d, *st, age.bits, rate.bits)).collect();
    assert_eq!(
        seen,
        vec![
            (Device::Waist, SlotState::Live, half.bits, fifty.bits),
            (Device::LeftFoot, SlotState::Stale, one.bits, 0),
        ]
    );
    assert_eq!(v.events, vec!["kept".to_string()]);
    assert_eq!(v.error.as_deref(), Some("kept too"));
    assert_eq!(v.bridges.len(), 1);
    assert!(v.drifted);

    let kept: Vec<_> = kept_rates(&v.slots).iter().map(|(id, r)| (*id, r.bits)).collect();
    assert_eq!(kept, vec![(Device::Waist.id(), fifty.bits), (Device::LeftFoot.id(), 0)]);
}

/// Where no rates are counted, a puck that stamps its role keeps the rate it was
/// shown with; one that stamps an id of its own is shown with none.
#[test]
fn rates_are_shown_until_the_next() {
    let (age, fifty) = (Single { bits: 1 }, Single { bits: 50.0f32.to_bits() });
    let mut v = ServiceView::new();
    let waist = Device::Waist.id();
    let slots = vec![
        (Device::Waist, SlotState::Live, waist, None),
        (Device::LeftFoot, SlotState::Live, 200, None),
    ];
    let ages = vec![age, age];
    let counted = Some(vec![(waist, fifty), (200, fifty)]);
    v.publish(vec![], None, &slots, &ages, counted, vec![], 0, 0, vec![]);
    assert_eq!([v.slots[0].3.bits, v.slots[1].3.bits], [fifty.bits, fifty.bits]);
    v.publish(vec![], None, &slots, &ages, None, vec![], 0, 0, vec![]);
    assert_eq!([v.slots[0].3.bits, v.slots[1].3.bits], [fifty.bits, 0]);
    let other = Some(vec![(waist + 1, fifty)]);
    v.publish(vec![], None, &slots, &ages, other, vec![], 0, 0, vec![]);
    assert_eq!([v.slots[0].3.bits, v.slots[1].3.bits], [0, 0], "of another source");
}

/// Nothing is shared while a job runs, and no number is used up.
#[test]
fn sharing_waits_for_no_running_job() {
    let mut s = service(vec![puck("a", 0, None), puck("b", 1, None)]);
    s.runner = Runner::Up;
    assert_eq!(s.create_map("a", false), Ok(1));
    let (job, _) = s.next_job().unwrap();
    s.jobs.start(job, 0);
    assert!(s.job_running());
    assert_eq!(
        s.share_map("a", vec!["b".into()], false).unwrap_err(),
        "a job is already running"
    );
    assert!(s.next_job().is_none());
    assert_eq!(s.share_map("a", vec![], false).unwrap_err(), "no other pucks to share with");
    s.jobs.finish(1, Ok("done".into()), 5);
    assert!(!s.job_running());
    assert_eq!(s.share_map("a", vec!["b".into()], false), Ok(2));
}

/// Without ids of their own a byte that names no role is not watched.
#[test]
fn only_roles_are_watched_without_ids() {
    assert_eq!(Create::start("a".into(), Some(200), true).0.src, Some(200));
    assert_eq!(Create::start("a".into(), Some(200), false).0.src, None);
    assert_eq!(Create::start("a".into(), Some(10), false).0.src, Some(10));
}

/// The bridges are asked for once, when every target is dealt with.
#[test]
fn bridges_are_asked_for_when_every_target_is_dealt_with() {
    let mut s = sharing(&["b"], false, true);
    pulled(&mut s);
    s.hear(&ShareReply::Stop(false), 0, 100);
    assert!(!s.take_rebridge());
    s.hear(&ShareReply::Status(tracking("0123456789", true)), 0, 100);
    assert!(s.take_rebridge() && !s.take_rebridge());
}

/// A service begins with an empty view.
#[test]
fn a_service_begins_with_nothing_seen() {
    let s = service(vec![puck("a", 0, None)]);
    let v = s.view();
    assert!(v.live.is_empty() && v.slots.is_empty() && v.bridges.is_empty());
    assert!(v.unknown_sources.is_empty() && v.events.is_empty() && v.jobs.is_empty());
    assert_eq!((v.emitted, v.n_transforms, v.drifted), (0, 0, false));
    assert!(v.sep.is_none() && v.error.is_none());
}
