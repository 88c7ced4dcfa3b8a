//! The operations on a puck's persisted map.
//!
//! Insight persists its map once a map context holds a persisted anchor. Pucks
//! that load the same map track in one frame with no host-side transform. The
//! operations here are destructive and multi-step, so each is a sequence of
//! decisions: it asks for one thing at a time, is told how it went, and goes no
//! further than what it was told allows. The host does what is asked for.

use crate::fleet::{FleetError, MapdbInfo, PuckStatus};
use crate::jobs::since;
use crate::text;
use vstd::prelude::*;

verus! {

/// Nanoseconds in a second.
pub const SECOND: u64 = 1_000_000_000;

/// Where saving a puck's map stands.
#[derive(Debug, Clone, Copy, PartialEq, Eq, Structural)]
pub enum Backup {
    /// Ask what the puck's map amounts to.
    Inspect,
    /// Copy it on the device, under that stamp.
    Copy(u64),
    /// Pull it to the host, under that stamp, and count the map files.
    Pull(u64),
    /// Saved on the device and on the host.
    Saved(u64),
    /// There is nothing to save.
    Nothing,
    /// The pull brought no map files: the map must not be overwritten.
    Refused,
    /// What was asked for failed with an error of its own.
    Failed,
}

/// How what a backup asked for went.
#[derive(Debug, Clone, Copy, PartialEq, Eq, Structural)]
pub enum BackupReply {
    Info(MapdbInfo),
    Copied,
    /// With the number of map files that landed.
    Pulled(usize),
    Error,
}

impl Backup {
    /// The next stand.
    pub open spec fn heard(self, reply: BackupReply, unix_now: u64) -> Backup {
        match (self, reply) {
            (Backup::Inspect, BackupReply::Info(i)) => if i.files == 0 {
                Backup::Nothing
            } else {
                Backup::Copy(unix_now)
            },
            (Backup::Copy(stamp), BackupReply::Copied) => Backup::Pull(stamp),
            (Backup::Pull(stamp), BackupReply::Pulled(n)) => if n == 0 {
                Backup::Refused
            } else {
                Backup::Saved(stamp)
            },
            (Backup::Inspect, BackupReply::Error) => Backup::Failed,
            (Backup::Copy(_), BackupReply::Error) => Backup::Failed,
            (Backup::Pull(_), BackupReply::Error) => Backup::Failed,
            _ => self,
        }
    }
}

/// Save a puck's current map before it is overwritten: on the device first, then
/// on the host. An empty map is no error, there is nothing to save. A reply that
/// was not asked for changes nothing.
pub fn backup_mapdb(stand: Backup, reply: BackupReply, unix_now: u64) -> (r: Backup)
    ensures
        r == stand.heard(reply, unix_now),
{
    match (stand, reply) {
        (Backup::Inspect, BackupReply::Info(i)) => if i.is_empty() {
            Backup::Nothing
        } else {
            Backup::Copy(unix_now)
        },
        (Backup::Copy(stamp), BackupReply::Copied) => Backup::Pull(stamp),
        (Backup::Pull(stamp), BackupReply::Pulled(n)) => if n == 0 {
            Backup::Refused
        } else {
            Backup::Saved(stamp)
        },
        (Backup::Inspect, BackupReply::Error) => Backup::Failed,
        (Backup::Copy(_), BackupReply::Error) => Backup::Failed,
        (Backup::Pull(_), BackupReply::Error) => Backup::Failed,
        _ => stand,
    }
}

/// A map counts as saved only after it was copied on the device and at least one
/// map file landed on the host, all under one stamp.
pub proof fn a_saved_map_was_copied_and_pulled(stand: Backup, reply: BackupReply, unix_now: u64)
    requires
        !(stand is Saved),
        stand.heard(reply, unix_now) is Saved,
    ensures
        stand == Backup::Pull(stand.heard(reply, unix_now)->Saved_0),
        reply matches BackupReply::Pulled(n) && n > 0,
{
}

/// Where a backup lies on the device.
pub fn backup_path(stamp: u64) -> (r: String)
    ensures
        r@ == "/data/local/tmp/mapdb_backup_"@ + text::decimal_of(stamp as nat),
{
    text::glue("/data/local/tmp/mapdb_backup_", text::decimal(stamp).as_str())
}

/// The command that copies the map on the device, within 60 seconds.
pub fn backup_command(stamp: u64) -> (r: String)
    ensures
        ({
            let dir = "/data/local/tmp/mapdb_backup_"@ + text::decimal_of(stamp as nat);
            r@ == "mkdir -p "@ + dir + "; cp -a /vision/insideout/mapdb/. "@ + dir + "/"@
        }),
{
    let dir = backup_path(stamp);
    text::glue5(
        "mkdir -p ",
        dir.as_str(),
        "; cp -a /vision/insideout/mapdb/. ",
        dir.as_str(),
        "/",
    )
}

/// Why a map that could not be saved is not overwritten.
pub fn backup_refusal(ip: &str, landed: &str) -> (r: String)
    ensures
        r@ == "backup of "@ + ip@ + " pulled no .mapdata files to "@ + landed@
            + " -- refusing to overwrite its map"@,
{
    text::glue5(
        "backup of ",
        ip,
        " pulled no .mapdata files to ",
        landed,
        " -- refusing to overwrite its map",
    )
}

/// Where installing a map onto a puck stands.
#[derive(Debug, Clone, Copy, PartialEq, Eq, Structural)]
pub enum Seeding {
    /// Acquire adb root.
    Root,
    /// Count the map files to install.
    Count,
    /// Empty the staging directory: stale files would be copied in alongside.
    Stage,
    /// Push the files to the staging directory.
    Push,
    /// Clear the puck's map.
    Clear,
    /// Copy the staged files in.
    Copy,
    /// Fix ownership, mode and SELinux label.
    Label,
    /// Read the labels back.
    Check,
    /// Ask what the map now amounts to.
    Recount,
    /// That many files are installed.
    Done(usize),
    /// adb is not root: chown, chmod and chcon would fail silently.
    NotRoot,
    /// There is nothing to install.
    NoFiles,
    /// That many files do not carry the label: tracking would ignore the map.
    Unlabelled(usize),
    /// What was asked for failed with an error of its own.
    Failed,
}

/// How what an installation asked for went.
#[derive(Debug, Clone, Copy, PartialEq, Eq, Structural)]
pub enum SeedReply {
    Root(bool),
    /// The number of map files to install.
    Count(usize),
    /// The command or the push succeeded.
    Ran,
    /// The number of files without the label.
    Labels(usize),
    Info(MapdbInfo),
    Error,
}

impl Seeding {
    /// The next stand. `replace` clears the puck's map first: copying one
    /// lineage over another would merge the two.
    pub open spec fn heard(self, reply: SeedReply, replace: bool) -> Seeding {
        match (self, reply) {
            (Seeding::Root, SeedReply::Root(b)) => if b {
                Seeding::Count
            } else {
                Seeding::NotRoot
            },
            (Seeding::Count, SeedReply::Count(n)) => if n == 0 {
                Seeding::NoFiles
            } else {
                Seeding::Stage
            },
            (Seeding::Stage, SeedReply::Ran) => Seeding::Push,
            (Seeding::Push, SeedReply::Ran) => if replace {
                Seeding::Clear
            } else {
                Seeding::Copy
            },
            (Seeding::Clear, SeedReply::Ran) => Seeding::Copy,
            (Seeding::Copy, SeedReply::Ran) => Seeding::Label,
            (Seeding::Label, SeedReply::Ran) => Seeding::Check,
            (Seeding::Check, SeedReply::Labels(bad)) => if bad > 0 {
                Seeding::Unlabelled(bad)
            } else {
                Seeding::Recount
            },
            (Seeding::Recount, SeedReply::Info(i)) => Seeding::Done(i.files),
            (_, SeedReply::Error) => if self.fallible() {
                Seeding::Failed
            } else {
                self
            },
            _ => self,
        }
    }

    /// What is asked for here can fail with an error of its own.
    pub open spec fn fallible(self) -> bool {
        self is Stage || self is Push || self is Clear || self is Copy || self is Label
            || self is Check || self is Recount
    }

    /// The command asked for, and its time limit in seconds.
    pub open spec fn asked(self) -> Option<(Seq<char>, u32)> {
        match self {
            Seeding::Stage => Some(
                ("rm -rf /data/local/tmp/mapdb_in; mkdir -p /data/local/tmp/mapdb_in"@, 30),
            ),
            Seeding::Clear => Some(("rm -f /vision/insideout/mapdb/*.mapdata"@, 30)),
            Seeding::Copy => Some(
                ("cp /data/local/tmp/mapdb_in/*.mapdata /vision/insideout/mapdb/"@, 60),
            ),
            Seeding::Label => Some(
                (
                    "chown system:system /vision/insideout/mapdb/*.mapdata; chmod 600 /vision/insideout/mapdb/*.mapdata; chcon u:object_r:vision_file:s0 /vision/insideout/mapdb/*.mapdata"@,
                    60,
                ),
            ),
            Seeding::Check => Some(("ls -Z /vision/insideout/mapdb/*.mapdata"@, 30)),
            _ => None,
        }
    }

    /// The command asked for, and its time limit in seconds.
    pub fn command(self) -> (r: Option<(&'static str, u32)>)
        ensures
            match r {
                Some((c, secs)) => self.asked() == Some((c@, secs)),
                None => self.asked() is None,
            },
    {
        match self {
            Seeding::Stage => Some(
                ("rm -rf /data/local/tmp/mapdb_in; mkdir -p /data/local/tmp/mapdb_in", 30),
            ),
            Seeding::Clear => Some(("rm -f /vision/insideout/mapdb/*.mapdata", 30)),
            Seeding::Copy => Some(
                ("cp /data/local/tmp/mapdb_in/*.mapdata /vision/insideout/mapdb/", 60),
            ),
            Seeding::Label => Some(
                (
                    "chown system:system /vision/insideout/mapdb/*.mapdata; chmod 600 /vision/insideout/mapdb/*.mapdata; chcon u:object_r:vision_file:s0 /vision/insideout/mapdb/*.mapdata",
                    60,
                ),
            ),
            Seeding::Check => Some(("ls -Z /vision/insideout/mapdb/*.mapdata", 30)),
            _ => None,
        }
    }

    /// Why an installation is refused.
    pub open spec fn refusal_text(self, ip: Seq<char>, dir: Seq<char>) -> Option<Seq<char>> {
        match self {
            Seeding::NotRoot => Some(
                ip + " is not adb root -- chown/chmod/chcon would fail silently"@,
            ),
            Seeding::NoFiles => Some("no .mapdata files in "@ + dir),
            Seeding::Unlabelled(bad) => Some(
                text::decimal_of(bad as nat) + " file(s) on "@ + ip
                    + " are not labelled u:object_r:vision_file:s0; trackingservice would silently ignore the map"@,
            ),
            _ => None,
        }
    }

    /// Why an installation is refused.
    pub fn refusal(self, ip: &str, dir: &str) -> (r: Option<String>)
        ensures
            match r {
                Some(s) => self.refusal_text(ip@, dir@) == Some(s@),
                None => self.refusal_text(ip@, dir@) is None,
            },
    {
        match self {
            Seeding::NotRoot => Some(
                text::glue(ip, " is not adb root -- chown/chmod/chcon would fail silently"),
            ),
            Seeding::NoFiles => Some(text::glue("no .mapdata files in ", dir)),
            Seeding::Unlabelled(bad) => {
                let mut s = text::glue3(
                    text::decimal(bad as u64).as_str(),
                    " file(s) on ",
                    ip,
                );
                s.append(
                    " are not labelled u:object_r:vision_file:s0; trackingservice would silently ignore the map",
                );
                Some(s)
            },
            _ => None,
        }
    }
}

/// Install a map onto a puck: stage, clear where the map is to be replaced, copy,
/// fix ownership and label, then verify that the label stuck. Does not restart
/// tracking. A reply that was not asked for changes nothing.
pub fn seed_mapdb(stand: Seeding, reply: SeedReply, replace: bool) -> (r: Seeding)
    ensures
        r == stand.heard(reply, replace),
{
    match (stand, reply) {
        (Seeding::Root, SeedReply::Root(b)) => if b {
            Seeding::Count
        } else {
            Seeding::NotRoot
        },
        (Seeding::Count, SeedReply::Count(n)) => if n == 0 {
            Seeding::NoFiles
        } else {
            Seeding::Stage
        },
        (Seeding::Stage, SeedReply::Ran) => Seeding::Push,
        (Seeding::Push, SeedReply::Ran) => if replace {
            Seeding::Clear
        } else {
            Seeding::Copy
        },
        (Seeding::Clear, SeedReply::Ran) => Seeding::Copy,
        (Seeding::Copy, SeedReply::Ran) => Seeding::Label,
        (Seeding::Label, SeedReply::Ran) => Seeding::Check,
        (Seeding::Check, SeedReply::Labels(bad)) => if bad > 0 {
            Seeding::Unlabelled(bad)
        } else {
            Seeding::Recount
        },
        (Seeding::Recount, SeedReply::Info(i)) => Seeding::Done(i.files),
        (s, SeedReply::Error) => match s {
            Seeding::Stage => Seeding::Failed,
            Seeding::Push => Seeding::Failed,
            Seeding::Clear => Seeding::Failed,
            Seeding::Copy => Seeding::Failed,
            Seeding::Label => Seeding::Failed,
            Seeding::Check => Seeding::Failed,
            Seeding::Recount => Seeding::Failed,
            _ => s,
        },
        _ => stand,
    }
}

/// An installation through a sequence of replies.
pub open spec fn seeded(stand: Seeding, replies: Seq<SeedReply>, replace: bool) -> Seeding
    decreases replies.len(),
{
    if replies.len() == 0 {
        stand
    } else {
        seeded(stand, replies.drop_last(), replace).heard(replies.last(), replace)
    }
}

/// No command touches the puck's map before adb is root, there is something to
/// install, and it has been staged: in particular a map is never cleared first.
pub proof fn a_map_is_cleared_only_with_another_staged(replies: Seq<SeedReply>, replace: bool)
    ensures
        ({
            let s = seeded(Seeding::Root, replies, replace);
            &&& s is Clear || s is Copy || s is Label || s is Check || s is Recount || s is Done
                || s is Unlabelled ==> replies.contains(SeedReply::Root(true)) && (exists|i: int|
                0 <= i < replies.len() && (#[trigger] replies[i] matches SeedReply::Count(n) && n
                    > 0)) && replies.contains(SeedReply::Ran)
            &&& s is Clear ==> replace
            &&& s is Stage || s is Push ==> replies.contains(SeedReply::Root(true)) && (
            exists|i: int|
                0 <= i < replies.len() && (#[trigger] replies[i] matches SeedReply::Count(n) && n
                    > 0))
            &&& s is Push ==> replies.contains(SeedReply::Ran)
            &&& s is Count ==> replies.contains(SeedReply::Root(true))
        }),
    decreases replies.len(),
{
    if replies.len() > 0 {
        let front = replies.drop_last();
        a_map_is_cleared_only_with_another_staged(front, replace);
        let s = seeded(Seeding::Root, front, replace);
        let last = replies.last();
        assert(replies[replies.len() - 1] == last);
        assert(forall|x: SeedReply| front.contains(x) ==> replies.contains(x)) by {
            assert forall|x: SeedReply| front.contains(x) implies replies.contains(x) by {
                let i = choose|i: int| 0 <= i < front.len() && front[i] == x;
                assert(replies[i] == x);
            }
        }
        assert(replies.contains(last));
        if exists|i: int|
            0 <= i < front.len() && (#[trigger] front[i] matches SeedReply::Count(n) && n > 0) {
            let i = choose|i: int|
                0 <= i < front.len() && (#[trigger] front[i] matches SeedReply::Count(n) && n > 0);
            assert(replies[i] == front[i]);
        }
    }
}

/// A map counts as installed only after every file was found to carry the label.
pub proof fn an_installed_map_is_labelled(stand: Seeding, reply: SeedReply, replace: bool)
    ensures
        stand.heard(reply, replace) is Done && !(stand is Done) ==> stand is Recount,
        stand.heard(reply, replace) is Recount && !(stand is Recount) ==> stand is Check && reply
            == SeedReply::Labels(0),
{
}

/// A line of a listing that names a file without the label.
pub open spec fn lacks_label(line: Seq<char>) -> bool {
    text::trimmed(line).len() > 0 && !text::holds(line, "u:object_r:vision_file:s0"@)
}

/// How many of the first `n` lines name a file without the label.
pub open spec fn unlabelled_among(lines: Seq<Seq<char>>, n: nat) -> nat
    decreases n,
{
    if n == 0 {
        0
    } else {
        unlabelled_among(lines, (n - 1) as nat) + if lacks_label(lines[n - 1]) {
            1nat
        } else {
            0nat
        }
    }
}

/// How many files of a listing do not carry the label under which tracking reads
/// them.
pub fn unlabelled_count(listing: &str) -> (r: usize)
    ensures
        r == unlabelled_among(
            text::pieces(listing@, "\n"@),
            text::pieces(listing@, "\n"@).len(),
        ),
{
    proof {
        reveal_strlit("\n");
    }
    let lines = text::split(listing, "\n");
    let ghost all = text::pieces(listing@, "\n"@);
    let mut n: usize = 0;
    let mut i: usize = 0;
    proof {
        assert(lines@.map_values(|x: &str| x@) == all);
        assert(lines@.map_values(|x: &str| x@).len() == lines@.len());
    }
    while i < lines.len()
        invariant
            i <= lines.len(),
            n <= i,
            n == unlabelled_among(all, i as nat),
            lines@.map_values(|x: &str| x@) == all,
        decreases lines.len() - i,
    {
        proof {
            assert(lines@.map_values(|x: &str| x@)[i as int] == lines@[i as int]@);
        }
        if text::trim(lines[i]).unicode_len() > 0 && !text::contains(
            lines[i],
            "u:object_r:vision_file:s0",
        ) {
            n = n + 1;
        }
        i = i + 1;
    }
    n
}

/// Whether to go on waiting: the time is not up.
pub fn waiting(start: u64, now: u64, deadline: u64) -> (r: bool)
    ensures
        r == (since(start, now) < deadline),
{
    now.saturating_sub(start) < deadline
}

/// Whether the puck has relocalized into the map with that root.
pub fn await_map_root(st: &PuckStatus, root: &str) -> (r: bool)
    ensures
        r == (st@.mapped() && st@.map_root == root@),
{
    st.mapped() && text::same(st.map_root.as_str(), root)
}

/// What is said while a puck relocalizes.
pub fn relocalize_note(ip: &str, start: u64, now: u64, st: &PuckStatus) -> (r: String)
    ensures
        r@ == "waiting for "@ + ip@ + " to relocalize: "@ + text::decimal_of(
            since(start, now) as nat / SECOND as nat,
        ) + "s (now "@ + (if st@.map_root.len() == 0 {
            "no context"@
        } else {
            text::shortened(st@.map_root, 8)
        }) + ")"@,
{
    let secs: u64 = now.saturating_sub(start) / SECOND;
    let mut s = text::glue5(
        "waiting for ",
        ip,
        " to relocalize: ",
        text::decimal(secs).as_str(),
        "s (now ",
    );
    if st.map_root.as_str().unicode_len() == 0 {
        s.append("no context");
    } else {
        s.append(text::shorten(st.map_root.as_str(), 8).as_str());
    }
    s.append(")");
    s
}

/// Whether Insight tracks at 6DOF with a valid pose.
pub fn await_6dof(st: &PuckStatus) -> (r: bool)
    ensures
        r == st@.tracks(),
{
    st.tracks()
}

/// What is said while a puck reaches 6DOF.
pub fn tracking_note(ip: &str, start: u64, now: u64, st: &PuckStatus) -> (r: String)
    ensures
        r@ == "waiting for 6DOF on "@ + ip@ + ": "@ + text::decimal_of(
            since(start, now) as nat / SECOND as nat,
        ) + "s (now "@ + (if st@.tracking.len() == 0 {
            "no tracking"@
        } else {
            st@.tracking
        }) + ")"@,
{
    let secs: u64 = now.saturating_sub(start) / SECOND;
    let mut s = text::glue5(
        "waiting for 6DOF on ",
        ip,
        ": ",
        text::decimal(secs).as_str(),
        "s (now ",
    );
    if st.tracking.as_str().unicode_len() == 0 {
        s.append("no tracking");
    } else {
        s.append(st.tracking.as_str());
    }
    s.append(")");
    s
}

/// Where minting a map stands.
#[derive(Debug, PartialEq, Eq)]
pub enum Minting {
    /// Acquire adb root.
    Root,
    /// Ask for the puck's status.
    Inspect,
    /// Enable guardian.
    Up,
    /// Since that time, ask for the status every 2 s until it tracks at 6DOF,
    /// for at most 90 s.
    Track(u64),
    /// Ask the puck for its clock, for the log window.
    Clock,
    /// Tell guardian to place an anchor.
    Send,
    /// Since that time, ask for the status every 3 s until a persistent map
    /// appears, for at most 45 s.
    Appear(u64),
    /// Read guardian's own words out of the log.
    Log,
    /// Disable guardian, whatever comes of it, and give up for that reason.
    Undo(MintFault),
    /// Disable guardian; the map is there.
    Down,
    /// Disable guardian, whatever comes of it, and fail with that error. Where
    /// disabling it is what failed, it is tried once more.
    Back(FleetError),
    /// The map is there and guardian is disabled again.
    Made,
    /// Given up, for that reason.
    Refused(MintFault),
    /// What was asked for failed with that error.
    Failed(FleetError),
}

/// Why no map was minted.
#[derive(Debug, Clone, Copy, PartialEq, Eq, Structural)]
pub enum MintFault {
    NotRoot,
    /// The puck has a persistent map already.
    Mapped,
    /// The puck did not reach 6DOF.
    NoTracking,
    /// No persistent map appeared.
    NoMap,
}

/// How what minting asked for went.
#[derive(Debug)]
pub enum MintReply {
    Root(bool),
    Status(PuckStatus),
    /// The script or command succeeded.
    Ran,
    /// The answer to a question that may stay open.
    Answer,
    /// What was asked for failed.
    Error(FleetError),
}

impl Minting {
    /// The next stand.
    pub open spec fn heard(self, reply: MintReply, now: u64) -> Minting {
        match (self, reply) {
            (Minting::Root, MintReply::Root(b)) => if b {
                Minting::Inspect
            } else {
                Minting::Refused(MintFault::NotRoot)
            },
            (Minting::Inspect, MintReply::Status(st)) => if st.map_persistent {
                Minting::Refused(MintFault::Mapped)
            } else {
                Minting::Up
            },
            (Minting::Up, MintReply::Ran) => Minting::Track(now),
            (Minting::Up, MintReply::Error(e)) => Minting::Back(e),
            (Minting::Track(start), MintReply::Status(st)) => if st@.tracks() {
                Minting::Clock
            } else if since(start, now) < 90 * SECOND {
                self
            } else {
                Minting::Undo(MintFault::NoTracking)
            },
            (Minting::Clock, MintReply::Answer) => Minting::Send,
            (Minting::Send, MintReply::Ran) => Minting::Appear(now),
            (Minting::Send, MintReply::Error(e)) => Minting::Back(e),
            (Minting::Appear(start), MintReply::Status(st)) => if st@.mapped() {
                Minting::Down
            } else if since(start, now) < 45 * SECOND {
                self
            } else {
                Minting::Log
            },
            (Minting::Log, MintReply::Answer) => Minting::Undo(MintFault::NoMap),
            (Minting::Undo(why), MintReply::Ran) => Minting::Refused(why),
            (Minting::Undo(why), MintReply::Error(_)) => Minting::Refused(why),
            (Minting::Down, MintReply::Ran) => Minting::Made,
            (Minting::Down, MintReply::Error(e)) => Minting::Back(e),
            (Minting::Back(e), MintReply::Ran) => Minting::Failed(e),
            (Minting::Back(e), MintReply::Error(_)) => Minting::Failed(e),
            _ => self,
        }
    }

    /// Guardian may be enabled here.
    pub open spec fn bracketed(self) -> bool {
        self is Track || self is Clock || self is Send || self is Appear || self is Log
            || self is Undo || self is Down || self is Back
    }
}

/// Mint a persistent map for the space the puck is in. Guardian refuses to place
/// an anchor without saying so in a status code, so the verdict is a new
/// persistent map appearing. A reply that was not asked for changes nothing.
///
/// A status is handed in together with the time at which it is to be decided
/// whether to ask again.
pub fn create_map(stand: Minting, reply: MintReply, now: u64) -> (r: Minting)
    ensures
        r == stand.heard(reply, now),
{
    match stand {
        Minting::Root => match reply {
            MintReply::Root(b) => if b {
                Minting::Inspect
            } else {
                Minting::Refused(MintFault::NotRoot)
            },
            _ => Minting::Root,
        },
        Minting::Inspect => match reply {
            MintReply::Status(st) => if st.map_persistent {
                Minting::Refused(MintFault::Mapped)
            } else {
                Minting::Up
            },
            _ => Minting::Inspect,
        },
        Minting::Up => match reply {
            MintReply::Ran => Minting::Track(now),
            MintReply::Error(e) => Minting::Back(e),
            _ => Minting::Up,
        },
        Minting::Track(start) => match reply {
            MintReply::Status(st) => if st.tracks() {
                Minting::Clock
            } else if waiting(start, now, 90 * SECOND) {
                Minting::Track(start)
            } else {
                Minting::Undo(MintFault::NoTracking)
            },
            _ => Minting::Track(start),
        },
        Minting::Clock => match reply {
            MintReply::Answer => Minting::Send,
            _ => Minting::Clock,
        },
        Minting::Send => match reply {
            MintReply::Ran => Minting::Appear(now),
            MintReply::Error(e) => Minting::Back(e),
            _ => Minting::Send,
        },
        Minting::Appear(start) => match reply {
            MintReply::Status(st) => if st.mapped() {
                Minting::Down
            } else if waiting(start, now, 45 * SECOND) {
                Minting::Appear(start)
            } else {
                Minting::Log
            },
            _ => Minting::Appear(start),
        },
        Minting::Log => match reply {
            MintReply::Answer => Minting::Undo(MintFault::NoMap),
            _ => Minting::Log,
        },
        Minting::Undo(why) => match reply {
            MintReply::Ran => Minting::Refused(why),
            MintReply::Error(_) => Minting::Refused(why),
            _ => Minting::Undo(why),
        },
        Minting::Down => match reply {
            MintReply::Ran => Minting::Made,
            MintReply::Error(e) => Minting::Back(e),
            _ => Minting::Down,
        },
        Minting::Back(e) => match reply {
            MintReply::Ran => Minting::Failed(e),
            MintReply::Error(_) => Minting::Failed(e),
            _ => Minting::Back(e),
        },
        Minting::Made => Minting::Made,
        Minting::Refused(why) => Minting::Refused(why),
        Minting::Failed(e) => Minting::Failed(e),
    }
}

/// A map is reported made only after it was seen as a persistent context and
/// guardian was disabled again. Once guardian was told to come up, neither a
/// refusal nor a failure comes before it was told to go down, and a failure is
/// that of the command that failed first.
pub proof fn guardian_is_put_back(stand: Minting, reply: MintReply, now: u64)
    ensures
        stand.heard(reply, now) is Made && !(stand is Made) ==> stand is Down && reply is Ran,
        stand.heard(reply, now) is Down && !(stand is Down) ==> stand is Appear && (
        reply matches MintReply::Status(st) && st@.mapped()),
        (stand is Up || stand.bracketed()) && stand.heard(reply, now) is Refused ==> stand is Undo,
        (stand is Up || stand.bracketed()) && stand.heard(reply, now) is Failed ==> stand
            == Minting::Back(stand.heard(reply, now)->Failed_0),
        stand.heard(reply, now) is Back && !(stand is Back) ==> reply == MintReply::Error(
            stand.heard(reply, now)->Back_0,
        ),
        stand is Up || stand.bracketed() ==> ({
            let next = stand.heard(reply, now);
            next is Up || next.bracketed() || next is Made || next is Refused || next is Failed
        }),
{
}

/// A puck that has a persistent map keeps it: nothing is asked of guardian.
pub proof fn a_mapped_puck_is_left_alone(st: PuckStatus, now: u64)
    requires
        st.map_persistent,
    ensures
        Minting::Inspect.heard(MintReply::Status(st), now) == Minting::Refused(MintFault::Mapped),
{
}

/// The command that tells guardian to place an anchor, within 30 seconds. Single
/// quotes survive: the JSON holds none.
pub open spec fn anchor_text(roomscale: bool) -> Seq<char> {
    "am broadcast -a com.oculus.vrguardianservice.JsonCmdUserBroadcast -p com.oculus.guardian --es cmd '{\"automation\":{\"guardian\":{\""@
        + anchor_kind(roomscale) + "\":true}}}'"@
}

/// The kind of anchor asked for.
pub open spec fn anchor_kind(roomscale: bool) -> Seq<char> {
    if roomscale {
        "force_roomscale"@
    } else {
        "force_stationary"@
    }
}

/// The command that tells guardian to place an anchor, and what is said of it.
pub fn anchor_command(roomscale: bool) -> (r: (String, String))
    ensures
        r.0@ == anchor_text(roomscale),
        r.1@ == "sending "@ + anchor_kind(roomscale),
{
    let kind = if roomscale {
        "force_roomscale"
    } else {
        "force_stationary"
    };
    (
        text::glue3(
            "am broadcast -a com.oculus.vrguardianservice.JsonCmdUserBroadcast -p com.oculus.guardian --es cmd '{\"automation\":{\"guardian\":{\"",
            kind,
            "\":true}}}'",
        ),
        text::glue("sending ", kind),
    )
}

/// The question for the puck's clock, within 20 seconds.
pub fn clock_command() -> (r: &'static str)
    ensures
        r@ == "date '+%m-%d %H:%M:%S.000'"@,
{
    "date '+%m-%d %H:%M:%S.000'"
}

/// The question for guardian's own words since the puck's time `clock`, within
/// 30 seconds.
pub fn log_command(clock: &str) -> (r: String)
    ensures
        r@ == "logcat -d -t '"@ + text::trimmed(clock@)
            + "' 2>/dev/null | grep -iE 'ProcessJsonCmd|force_stationary|force_roomscale|persistAnchor' | tail -4"@,
{
    text::glue3(
        "logcat -d -t '",
        text::trim(clock),
        "' 2>/dev/null | grep -iE 'ProcessJsonCmd|force_stationary|force_roomscale|persistAnchor' | tail -4",
    )
}

/// What is said while a map is awaited.
pub fn appear_note(start: u64, now: u64) -> (r: String)
    ensures
        r@ == "waiting for a persistent map: "@ + text::decimal_of(
            since(start, now) as nat / SECOND as nat,
        ) + "s"@,
{
    let secs: u64 = now.saturating_sub(start) / SECOND;
    text::glue3("waiting for a persistent map: ", text::decimal(secs).as_str(), "s")
}

/// Why no map was minted, in words. `root` is the map the puck has, and `log` is
/// what guardian said.
pub open spec fn mint_text(
    why: MintFault,
    ip: Seq<char>,
    root: Seq<char>,
    log: Seq<char>,
) -> Seq<char> {
    match why {
        MintFault::NotRoot => ip + " is not adb root"@,
        MintFault::Mapped => ip + " already has a persistent map ("@ + text::shortened(root, 8)
            + "). Creating another is untested; share this one instead."@,
        MintFault::NoTracking => ip
            + " did not reach 6DOF within 90 s. It must be WORN (or at least awake and seeing the room) for guardian to place an anchor."@,
        MintFault::NoMap => if text::trimmed(log).len() == 0 {
            ip + ": no persistent map appeared, and guardian logged nothing"@
        } else {
            ip + ": no persistent map appeared. guardian said:\n"@ + text::trimmed(log)
        },
    }
}

/// Why no map was minted, in words.
pub fn mint_message(why: MintFault, ip: &str, root: &str, log: &str) -> (r: String)
    ensures
        r@ == mint_text(why, ip@, root@, log@),
{
    match why {
        MintFault::NotRoot => text::glue(ip, " is not adb root"),
        MintFault::Mapped => {
            let mut s = text::glue3(
                ip,
                " already has a persistent map (",
                text::shorten(root, 8).as_str(),
            );
            s.append("). Creating another is untested; share this one instead.");
            s
        },
        MintFault::NoTracking => text::glue(
            ip,
            " did not reach 6DOF within 90 s. It must be WORN (or at least awake and seeing the room) for guardian to place an anchor.",
        ),
        MintFault::NoMap => {
            let said = text::trim(log);
            if said.unicode_len() == 0 {
                text::glue(ip, ": no persistent map appeared, and guardian logged nothing")
            } else {
                text::glue3(ip, ": no persistent map appeared. guardian said:\n", said)
            }
        },
    }
}

/// What a status says of tracking: 6DOF, with a valid pose.
pub open spec fn sees_tracking(st: PuckStatus) -> bool {
    st.tracking@ == "6DOF"@ && st.tracking_valid
}

/// What a status says of the map: there is a persistent one, and it has a name.
pub open spec fn sees_map(st: PuckStatus) -> bool {
    st.map_persistent && st.map_root@.len() > 0
}

/// Minting waits out its time. 6DOF is awaited for 90 s and the map for 45 s: a
/// status without it leaves everything as it is until the time is up, and only then
/// is it given up. What is awaited counts whenever it comes.
pub proof fn minting_waits_out_its_time(stand: Minting, st: PuckStatus, now: u64)
    ensures
        stand matches Minting::Track(start) ==> {
            let next = stand.heard(MintReply::Status(st), now);
            &&& sees_tracking(st) ==> next == Minting::Clock
            &&& !sees_tracking(st) && now < start + 90_000_000_000 ==> next == stand
            &&& !sees_tracking(st) && now >= start + 90_000_000_000 ==> next == Minting::Undo(
                MintFault::NoTracking,
            )
        },
        stand matches Minting::Appear(start) ==> {
            let next = stand.heard(MintReply::Status(st), now);
            &&& sees_map(st) ==> next == Minting::Down
            &&& !sees_map(st) && now < start + 45_000_000_000 ==> next == stand
            &&& !sees_map(st) && now >= start + 45_000_000_000 ==> next == Minting::Log
        },
{
}

/// Nothing is given up but for its reason: without root, with a map already there,
/// with 90 s gone by without 6DOF, or with 45 s gone by without a map. And guardian
/// is asked to undo what was done only after one of the last two, or an error.
pub proof fn minting_gives_up_only_for_its_reason(stand: Minting, reply: MintReply, now: u64)
    requires
        stand.heard(reply, now) != stand,
    ensures
        ({
            let next = stand.heard(reply, now);
            &&& next == Minting::Refused(MintFault::NotRoot) ==> stand == Minting::Undo(
                MintFault::NotRoot,
            ) || (stand == Minting::Root && reply == MintReply::Root(false))
            &&& next == Minting::Refused(MintFault::Mapped) ==> stand == Minting::Undo(
                MintFault::Mapped,
            ) || (stand == Minting::Inspect && (reply matches MintReply::Status(st)
                && st.map_persistent))
            &&& next == Minting::Refused(MintFault::NoTracking) ==> stand == Minting::Undo(
                MintFault::NoTracking,
            )
            &&& next == Minting::Refused(MintFault::NoMap) ==> stand == Minting::Undo(
                MintFault::NoMap,
            )
            &&& next == Minting::Log ==> (stand matches Minting::Appear(start) && now >= start
                + 45_000_000_000 && (reply matches MintReply::Status(st) && !sees_map(st)))
            &&& (next matches Minting::Undo(why) ==> {
                ||| why == MintFault::NoMap && stand == Minting::Log
                ||| why == MintFault::NoTracking && (stand matches Minting::Track(start) && now
                    >= start + 90_000_000_000 && (reply matches MintReply::Status(st)
                    && !sees_tracking(st)))
            })
            &&& (next matches Minting::Back(e) ==> reply == MintReply::Error(e))
            &&& (next matches Minting::Failed(e) ==> stand == Minting::Back(e))
            &&& next == Minting::Made ==> stand == Minting::Down && reply == MintReply::Ran
        }),
{
}

/// Minting through a sequence of replies, each with the time it came.
pub open spec fn minted(stand: Minting, replies: Seq<(MintReply, u64)>) -> Minting
    decreases replies.len(),
{
    if replies.len() == 0 {
        stand
    } else {
        minted(stand, replies.drop_last()).heard(replies.last().0, replies.last().1)
    }
}

/// These are statuses, each from before the time is up, and none shows what is
/// awaited.
pub open spec fn still_waiting(
    polls: Seq<(MintReply, u64)>,
    start: u64,
    limit: int,
    seen: spec_fn(PuckStatus) -> bool,
) -> bool {
    forall|i: int|
        0 <= i < polls.len() ==> (#[trigger] polls[i]).1 < start + limit && (
        polls[i].0 matches MintReply::Status(st) && !seen(st))
}

proof fn lemma_waits(stand: Minting, polls: Seq<(MintReply, u64)>)
    requires
        match stand {
            Minting::Track(start) => still_waiting(
                polls,
                start,
                90_000_000_000,
                |st: PuckStatus| sees_tracking(st),
            ),
            Minting::Appear(start) => still_waiting(
                polls,
                start,
                45_000_000_000,
                |st: PuckStatus| sees_map(st),
            ),
            _ => false,
        },
    ensures
        minted(stand, polls) == stand,
    decreases polls.len(),
{
    if polls.len() > 0 {
        let front = polls.drop_last();
        assert forall|i: int| 0 <= i < front.len() implies #[trigger] front[i] == polls[i] by {}
        lemma_waits(stand, front);
        assert(polls[polls.len() - 1] == polls.last());
    }
}

/// A puck that does what it is asked for gets its map, however often it is looked
/// at before: it gives root, has no map yet, tracks before 90 s are over since
/// guardian came up, takes the anchor, and shows a map before 45 s are over since
/// then.
pub proof fn a_willing_puck_gets_its_map(
    bare: PuckStatus,
    up: u64,
    blind: Seq<(MintReply, u64)>,
    tracking: PuckStatus,
    sent: u64,
    unmapped: Seq<(MintReply, u64)>,
    mapped: PuckStatus,
    t: u64,
)
    requires
        !bare.map_persistent,
        still_waiting(blind, up, 90_000_000_000, |st: PuckStatus| sees_tracking(st)),
        sees_tracking(tracking),
        still_waiting(unmapped, sent, 45_000_000_000, |st: PuckStatus| sees_map(st)),
        sees_map(mapped),
    ensures
        ({
            let seeing = minted(
                Minting::Root.heard(MintReply::Root(true), t).heard(MintReply::Status(bare), t).heard(
                    MintReply::Ran,
                    up,
                ),
                blind,
            ).heard(MintReply::Status(tracking), t);
            let shown = minted(
                seeing.heard(MintReply::Answer, t).heard(MintReply::Ran, sent),
                unmapped,
            ).heard(MintReply::Status(mapped), t);
            shown.heard(MintReply::Ran, t) == Minting::Made
        }),
{
    lemma_waits(Minting::Track(up), blind);
    lemma_waits(Minting::Appear(sent), unmapped);
}

/// A map that can be copied and pulled is saved, under the time at which it was
/// found; an empty one is not touched; and a pull that brings nothing is refused.
pub proof fn a_map_is_saved_under_the_time_it_was_found(
    info: MapdbInfo,
    pulled: usize,
    found: u64,
    copied: u64,
    landed: u64,
)
    ensures
        ({
            let first = Backup::Inspect.heard(BackupReply::Info(info), found);
            let end = first.heard(BackupReply::Copied, copied).heard(
                BackupReply::Pulled(pulled),
                landed,
            );
            &&& info.files == 0 ==> first == Backup::Nothing
            &&& info.files > 0 && pulled > 0 ==> end == Backup::Saved(found)
            &&& info.files > 0 && pulled == 0 ==> end == Backup::Refused
        }),
{
}

/// A backup that fails on the way stays failed: it never comes to count as saved,
/// nor as having had nothing to save.
pub proof fn a_failed_backup_stays_failed(stand: Backup, reply: BackupReply, unix_now: u64)
    ensures
        stand is Inspect || stand is Copy || stand is Pull ==> stand.heard(
            BackupReply::Error,
            unix_now,
        ) is Failed,
        stand is Failed || stand is Refused || stand is Nothing || stand is Saved ==> stand.heard(
            reply,
            unix_now,
        ) == stand,
{
}

/// A map is installed in full: with root, files to install and every command done,
/// the labels all in place, it counts as installed with as many files as are then
/// there. What is to be replaced is cleared once, after staging and before copying.
pub proof fn a_map_is_installed(
    count: usize,
    bad: usize,
    info: MapdbInfo,
    replace: bool,
)
    requires
        count > 0,
    ensures
        ({
            let staged = Seeding::Root.heard(SeedReply::Root(true), replace).heard(
                SeedReply::Count(count),
                replace,
            );
            let pushed = staged.heard(SeedReply::Ran, replace).heard(SeedReply::Ran, replace);
            let cleared = if replace {
                pushed.heard(SeedReply::Ran, replace)
            } else {
                pushed
            };
            let labelled = cleared.heard(SeedReply::Ran, replace).heard(SeedReply::Ran, replace);
            let checked = labelled.heard(SeedReply::Labels(bad), replace);
            &&& staged == Seeding::Stage
            &&& pushed == if replace {
                Seeding::Clear
            } else {
                Seeding::Copy
            }
            &&& cleared == Seeding::Copy
            &&& labelled == Seeding::Check
            &&& bad > 0 ==> checked == Seeding::Unlabelled(bad)
            &&& bad == 0 ==> checked.heard(SeedReply::Info(info), replace) == Seeding::Done(
                info.files,
            )
        }),
{
}

/// Without root, or with nothing to install, the puck's map is left as it is; and
/// once an installation has ended, or a command of it failed, nothing more is asked
/// for.
pub proof fn an_installation_that_cannot_go_on_ends(
    stand: Seeding,
    reply: SeedReply,
    replace: bool,
)
    ensures
        Seeding::Root.heard(SeedReply::Root(false), replace) == Seeding::NotRoot,
        Seeding::Count.heard(SeedReply::Count(0), replace) == Seeding::NoFiles,
        stand is Stage || stand is Push || stand is Clear || stand is Copy || stand is Label
            || stand is Check || stand is Recount ==> stand.heard(SeedReply::Error, replace)
            == Seeding::Failed,
        stand is Done || stand is NotRoot || stand is NoFiles || stand is Unlabelled
            || stand is Failed ==> stand.heard(reply, replace) == stand && stand.asked() is None,
{
}

/// The lines counted are those that name something without the label.
pub proof fn unlabelled_lines_are_counted(lines: Seq<Seq<char>>, n: nat)
    requires
        n <= lines.len(),
    ensures
        unlabelled_among(lines, n) == lines.take(n as int).filter(
            |l: Seq<char>|
                text::trimmed(l).len() > 0 && !text::holds(l, "u:object_r:vision_file:s0"@),
        ).len(),
    decreases n,
{
    reveal(Seq::filter);
    if n > 0 {
        unlabelled_lines_are_counted(lines, (n - 1) as nat);
        assert(lines.take(n as int).drop_last() =~= lines.take(n - 1));
        assert(lines.take(n as int).last() == lines[n - 1]);
    } else {
        assert(lines.take(0) =~= Seq::<Seq<char>>::empty());
    }
}

} // verus!
