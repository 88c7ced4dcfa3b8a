use insight_map_loader::fleet::map::{
    anchor_command, appear_note, await_6dof, await_map_root, backup_command, backup_mapdb,
    backup_path, backup_refusal, create_map, log_command, mint_message, relocalize_note,
    seed_mapdb, tracking_note, unlabelled_count, waiting, Backup, BackupReply, MintFault,
    MintReply, Minting, SeedReply, Seeding, SECOND,
};
use insight_map_loader::fleet::{FleetError, MapdbInfo, PuckStatus};

fn info(files: usize) -> MapdbInfo {
    MapdbInfo { files, bytes: 1024, mtime_unix: 7 }
}

fn tracking(root: &str, persistent: bool) -> PuckStatus {
    let mut st = PuckStatus::default();
    st.reachable = true;
    st.tracking = "6DOF".into();
    st.tracking_valid = true;
    st.map_root = root.into();
    st.map_persistent = persistent;
    st
}

/// A map is saved on the device, then on the host, under one stamp.
#[test]
fn a_backup_is_copied_then_pulled() {
    let copy = backup_mapdb(Backup::Inspect, BackupReply::Info(info(3)), 1000);
    assert_eq!(copy, Backup::Copy(1000));
    let pull = backup_mapdb(copy, BackupReply::Copied, 2000);
    assert_eq!(pull, Backup::Pull(1000));
    assert_eq!(backup_mapdb(pull, BackupReply::Pulled(3), 3000), Backup::Saved(1000));
    assert_eq!(backup_mapdb(pull, BackupReply::Pulled(0), 3000), Backup::Refused);
    assert_eq!(backup_mapdb(pull, BackupReply::Error, 3000), Backup::Failed);
    assert_eq!(
        backup_mapdb(Backup::Inspect, BackupReply::Info(info(0)), 1000),
        Backup::Nothing
    );
    assert_eq!(backup_mapdb(Backup::Inspect, BackupReply::Copied, 1), Backup::Inspect);
    assert_eq!(backup_path(1000), "/data/local/tmp/mapdb_backup_1000");
    assert_eq!(
        backup_command(5),
        "mkdir -p /data/local/tmp/mapdb_backup_5; cp -a /vision/insideout/mapdb/. \
         /data/local/tmp/mapdb_backup_5/"
    );
    assert_eq!(
        backup_refusal("a", "/b"),
        "backup of a pulled no .mapdata files to /b -- refusing to overwrite its map"
    );
}

/// An installation clears the puck's map only once another is staged.
#[test]
fn an_installation_runs_in_order() {
    let replies = [
        SeedReply::Root(true),
        SeedReply::Count(2),
        SeedReply::Ran,
        SeedReply::Ran,
        SeedReply::Ran,
        SeedReply::Ran,
        SeedReply::Ran,
        SeedReply::Labels(0),
        SeedReply::Info(info(2)),
    ];
    let mut s = Seeding::Root;
    let mut asked = Vec::new();
    for r in replies {
        if let Some((c, secs)) = s.command() {
            asked.push((c.split(' ').next().unwrap(), secs));
        }
        s = seed_mapdb(s, r, true);
    }
    assert_eq!(s, Seeding::Done(2));
    assert_eq!(asked, vec![("rm", 30), ("rm", 30), ("cp", 60), ("chown", 60), ("ls", 30)]);
    assert_eq!(seed_mapdb(Seeding::Push, SeedReply::Ran, false), Seeding::Copy);
    assert_eq!(seed_mapdb(Seeding::Copy, SeedReply::Error, true), Seeding::Failed);
}

#[test]
fn an_installation_is_refused_with_a_reason() {
    let not_root = seed_mapdb(Seeding::Root, SeedReply::Root(false), true);
    assert_eq!(
        not_root.refusal("a", "/m").unwrap(),
        "a is not adb root -- chown/chmod/chcon would fail silently"
    );
    let none = seed_mapdb(Seeding::Count, SeedReply::Count(0), true);
    assert_eq!(none.refusal("a", "/m").unwrap(), "no .mapdata files in /m");
    let bad = seed_mapdb(Seeding::Check, SeedReply::Labels(3), true);
    assert_eq!(
        bad.refusal("a", "/m").unwrap(),
        "3 file(s) on a are not labelled u:object_r:vision_file:s0; trackingservice would \
         silently ignore the map"
    );
    assert!(Seeding::Push.refusal("a", "/m").is_none());
}

#[test]
fn files_without_the_label_are_counted() {
    let ls = "u:object_r:vision_file:s0 a.mapdata\nu:object_r:shell_data_file:s0 b.mapdata\n\n \
              c.mapdata\n";
    assert_eq!(unlabelled_count(ls), 2);
    assert_eq!(unlabelled_count(""), 0);
}

#[test]
fn relocalizing_means_the_same_persistent_root() {
    assert!(await_map_root(&tracking("r1", true), "r1"));
    assert!(!await_map_root(&tracking("r1", false), "r1"));
    assert!(!await_map_root(&tracking("r2", true), "r1"));
    assert!(!await_map_root(&tracking("", true), ""));
    assert!(await_6dof(&tracking("", false)));
    assert!(!await_6dof(&PuckStatus::default()));
    assert!(waiting(0, 5, 6) && !waiting(0, 6, 6));
    assert_eq!(
        relocalize_note("a", 0, 4 * SECOND, &tracking("", false)),
        "waiting for a to relocalize: 4s (now no context)"
    );
    assert_eq!(
        relocalize_note("a", 0, 4 * SECOND, &tracking("0123456789", false)),
        "waiting for a to relocalize: 4s (now 01234567)"
    );
    assert_eq!(
        tracking_note("a", 0, SECOND, &PuckStatus::default()),
        "waiting for 6DOF on a: 1s (now no tracking)"
    );
    assert_eq!(
        tracking_note("a", 0, SECOND, &tracking("", false)),
        "waiting for 6DOF on a: 1s (now 6DOF)"
    );
    assert_eq!(appear_note(SECOND, 3 * SECOND), "waiting for a persistent map: 2s");
}

/// A map is made when a persistent context appears and guardian is down again.
#[test]
fn a_map_is_minted_between_guardian_up_and_down() {
    let m = create_map(Minting::Root, MintReply::Root(true), 0);
    let m = create_map(m, MintReply::Status(tracking("", false)), 0);
    assert_eq!(m, Minting::Up);
    let m = create_map(m, MintReply::Ran, 10);
    assert_eq!(m, Minting::Track(10));
    let m = create_map(m, MintReply::Status(PuckStatus::default()), 20 * SECOND);
    assert_eq!(m, Minting::Track(10));
    let m = create_map(m, MintReply::Status(tracking("", false)), 30 * SECOND);
    let m = create_map(m, MintReply::Answer, 30 * SECOND);
    assert_eq!(m, Minting::Send);
    let m = create_map(m, MintReply::Ran, 40 * SECOND);
    let m = create_map(m, MintReply::Status(tracking("r", true)), 50 * SECOND);
    assert_eq!(m, Minting::Down);
    assert_eq!(create_map(m, MintReply::Ran, 60 * SECOND), Minting::Made);
}

#[test]
fn a_refused_mint_puts_guardian_back_and_says_why() {
    assert_eq!(
        create_map(Minting::Root, MintReply::Root(false), 0),
        Minting::Refused(MintFault::NotRoot)
    );
    assert_eq!(
        create_map(Minting::Inspect, MintReply::Status(tracking("r", true)), 0),
        Minting::Refused(MintFault::Mapped)
    );
    let lost = PuckStatus::default();
    let m = create_map(Minting::Track(0), MintReply::Status(lost), 90 * SECOND);
    assert_eq!(m, Minting::Undo(MintFault::NoTracking));
    assert_eq!(create_map(m, MintReply::Error(broken("b")), 0), Minting::Refused(MintFault::NoTracking));
    let m = create_map(Minting::Appear(0), MintReply::Status(tracking("r", false)), 45 * SECOND);
    assert_eq!(m, Minting::Log);
    assert_eq!(create_map(m, MintReply::Answer, 0), Minting::Undo(MintFault::NoMap));

    assert_eq!(mint_message(MintFault::NotRoot, "a", "", ""), "a is not adb root");
    assert_eq!(
        mint_message(MintFault::Mapped, "a", "0123456789", ""),
        "a already has a persistent map (01234567). Creating another is untested; share this one \
         instead."
    );
    assert!(mint_message(MintFault::NoTracking, "a", "", "").contains("did not reach 6DOF within 90 s"));
    assert_eq!(
        mint_message(MintFault::NoMap, "a", "", " \n"),
        "a: no persistent map appeared, and guardian logged nothing"
    );
    assert_eq!(
        mint_message(MintFault::NoMap, "a", "", " Invalid Guardian\n"),
        "a: no persistent map appeared. guardian said:\nInvalid Guardian"
    );
}

#[test]
fn guardian_is_told_which_anchor_to_place() {
    let (cmd, said) = anchor_command(false);
    assert!(cmd.ends_with("--es cmd '{\"automation\":{\"guardian\":{\"force_stationary\":true}}}'"));
    assert_eq!(said, "sending force_stationary");
    assert!(anchor_command(true).0.contains("force_roomscale"));
    assert!(log_command(" 11-16 09:00:00.000\n").starts_with("logcat -d -t '11-16 09:00:00.000' "));
}

fn broken(why: &str) -> FleetError {
    FleetError::Spawn(why.into())
}

/// A failure while guardian may be up ends only after guardian was told to go
/// down, and as the failure that came first.
#[test]
fn a_failed_mint_puts_guardian_back() {
    for stand in [Minting::Up, Minting::Send, Minting::Down] {
        let m = create_map(stand, MintReply::Error(broken("first")), 0);
        assert_eq!(m, Minting::Back(broken("first")));
        let m = create_map(m, MintReply::Answer, 0);
        assert_eq!(m, Minting::Back(broken("first")));
        let m = create_map(m, MintReply::Error(broken("second")), 0);
        assert_eq!(m, Minting::Failed(broken("first")));
    }
    let m = create_map(Minting::Send, MintReply::Error(broken("only")), 0);
    assert_eq!(create_map(m, MintReply::Ran, 0), Minting::Failed(broken("only")));
}
