//! What is said to the pucks over adb, and how their answers are read.
//!
//! The pucks are rooted headsets on wifi adb. Two rules hold throughout:
//!
//! * Never pipe `dumpsys tracking` into something that closes the pipe early:
//!   that leaves the tracking service unavailable for many seconds. Dump to a
//!   file on the device and search the file.
//! * Batch device queries into one shell round trip.
//!
//! This module composes the commands and reads the replies; running adb is the
//! caller's.

pub mod map;
pub mod script;

use crate::ieee::Single;
use crate::mpt1::Pose;
use crate::text;
use vstd::prelude::*;

pub use map::{await_6dof, await_map_root, backup_mapdb, create_map, seed_mapdb};
pub use script::{
    configure_tracker, provision_autostart, restart_trackingservice, start_tracker, stop_tracker,
};

verus! {

/// The serial under which adb knows a puck.
pub fn serial(ip: &str) -> (r: String)
    ensures
        r@ == ip@ + ":5555"@,
{
    text::glue(ip, ":5555")
}

/// A failure from a checked adb call, with enough detail to show a user.
#[derive(Debug, PartialEq, Eq)]
pub enum FleetError {
    /// `timeout` or `adb` could not be spawned at all.
    Spawn(String),
    /// The `timeout` wrapper killed the call.
    Timeout { secs: u32 },
    /// adb itself failed on the host side.
    Adb { code: i32, stderr: String },
    /// The command ran on the puck and exited non-zero.
    Remote { code: i32, out: String },
    /// A precondition that is refused to go on without.
    Precondition(String),
}

/// What a failure says.
pub ghost enum FaultView {
    Spawn(Seq<char>),
    Timeout(u32),
    Adb(i32, Seq<char>),
    Remote(i32, Seq<char>),
    Precondition(Seq<char>),
}

impl View for FleetError {
    type V = FaultView;

    open spec fn view(&self) -> FaultView {
        match *self {
            FleetError::Spawn(e) => FaultView::Spawn(e@),
            FleetError::Timeout { secs } => FaultView::Timeout(secs),
            FleetError::Adb { code, stderr } => FaultView::Adb(code, stderr@),
            FleetError::Remote { code, out } => FaultView::Remote(code, out@),
            FleetError::Precondition(m) => FaultView::Precondition(m@),
        }
    }
}

impl FaultView {
    /// How the failure reads.
    pub open spec fn line(self) -> Seq<char> {
        match self {
            FaultView::Spawn(e) => "could not run adb: "@ + e,
            FaultView::Timeout(secs) => "adb timed out after "@ + text::decimal_of(secs as nat)
                + "s"@,
            FaultView::Adb(code, stderr) => "adb failed (exit "@ + text::signed_decimal_of(
                code as int,
            ) + "): "@ + text::trimmed(stderr),
            FaultView::Remote(code, out) => "command failed on puck (exit "@
                + text::signed_decimal_of(code as int) + "): "@ + text::trimmed(out),
            FaultView::Precondition(m) => m,
        }
    }
}

impl FleetError {
    /// How the failure reads.
    pub fn message(&self) -> (r: String)
        ensures
            r@ == self@.line(),
    {
        match self {
            FleetError::Spawn(e) => text::glue("could not run adb: ", e.as_str()),
            FleetError::Timeout { secs } => text::glue3(
                "adb timed out after ",
                text::decimal(*secs as u64).as_str(),
                "s",
            ),
            FleetError::Adb { code, stderr } => {
                let mut s = text::glue3(
                    "adb failed (exit ",
                    text::signed_decimal(*code as i64).as_str(),
                    "): ",
                );
                s.append(text::trim(stderr.as_str()));
                s
            },
            FleetError::Remote { code, out } => {
                let mut s = text::glue3(
                    "command failed on puck (exit ",
                    text::signed_decimal(*code as i64).as_str(),
                    "): ",
                );
                s.append(text::trim(out.as_str()));
                s
            },
            FleetError::Precondition(m) => m.clone(),
        }
    }
}

/// What a finished adb call amounts to: its output where it exited with zero,
/// else why it failed. The `timeout` wrapper reports 124 when it had to kill the
/// call, and a call killed otherwise has no exit code.
pub fn adb_raw(code: Option<i32>, stdout: String, stderr: String, secs: u32) -> (r: Result<
    String,
    FleetError,
>)
    ensures
        match code {
            Some(c) => if c == 0 {
                r == Ok::<String, FleetError>(stdout)
            } else if c == 124 {
                r matches Err(e) && e@ == FaultView::Timeout(secs)
            } else {
                r matches Err(e) && e@ == FaultView::Adb(c, stderr@)
            },
            None => r matches Err(e) && e@ == FaultView::Timeout(secs),
        },
{
    match code {
        Some(c) => if c == 0 {
            Ok(stdout)
        } else if c == 124 {
            Err(FleetError::Timeout { secs })
        } else {
            Err(FleetError::Adb { code: c, stderr })
        },
        None => Err(FleetError::Timeout { secs }),
    }
}

/// The command that carries its exit status back on a trailer line: adb's own
/// status is the transport's, not the command's.
pub fn checked_command(cmd: &str) -> (r: String)
    ensures
        r@ == cmd@ + "; echo \"@@RC:$?\""@,
{
    text::glue(cmd, "; echo \"@@RC:$?\"")
}

/// The body and the exit status of a reply with a status trailer.
pub open spec fn trailer(reply: Seq<char>) -> Option<(Seq<char>, int)> {
    match text::last_at(reply, "@@RC:"@, reply.len() - "@@RC:"@.len()) {
        Some(i) => Some(
            (
                reply.take(i),
                match text::signed_in(
                    text::trimmed(reply.skip(i + "@@RC:"@.len())),
                    i32::MAX as nat,
                ) {
                    Some(code) => code,
                    None => -1,
                },
            ),
        ),
        None => None,
    }
}

/// What a reply with a status trailer amounts to.
pub open spec fn checked(reply: Seq<char>) -> Result<Seq<char>, FaultView> {
    match trailer(reply) {
        None => Err(
            FaultView::Remote(
                (-1) as i32,
                "no status trailer; output was: "@ + text::trimmed(reply),
            ),
        ),
        Some((body, code)) => if code == 0 {
            Ok(body)
        } else {
            Err(FaultView::Remote(code as i32, body))
        },
    }
}

/// Read a reply with a status trailer: its body where the command exited with
/// zero on the puck, else why it failed.
pub fn shell_checked(reply: &str) -> (r: Result<String, FleetError>)
    ensures
        match r {
            Ok(s) => checked(reply@) == Ok::<Seq<char>, FaultView>(s@),
            Err(e) => checked(reply@) == Err::<Seq<char>, FaultView>(e@),
        },
{
    proof {
        reveal_strlit("@@RC:");
    }
    match text::rfind(reply, "@@RC:") {
        None => Err(
            FleetError::Remote {
                code: -1,
                out: text::glue("no status trailer; output was: ", text::trim(reply)),
            },
        ),
        Some(i) => {
            let _len: usize = reply.unicode_len();
            let tail = text::trim(text::from(reply, i + 5));
            let code: i32 = match text::parse_signed(tail, 0x7FFF_FFFF) {
                Some(n) => n as i32,
                None => -1,
            };
            let body = text::before(reply, i).to_string();
            if code == 0 {
                Ok(body)
            } else {
                Err(FleetError::Remote { code, out: body })
            }
        },
    }
}

/// Whether a reply to `id -u` says root.
pub fn says_root(reply: Option<&str>) -> (r: bool)
    ensures
        r == (match reply {
            Some(s) => text::trimmed(s@) == "0"@,
            None => false,
        }),
{
    match reply {
        Some(s) => text::same(text::trim(s), "0"),
        None => false,
    }
}

/// Where acquiring root stands.
#[derive(Debug, Clone, Copy, PartialEq, Eq, Structural)]
pub enum RootStage {
    /// Ask `id -u`.
    Ask,
    /// `adb root`, wait 1500 ms, connect, wait 500 ms, and ask `id -u` again.
    Restart,
    /// It is known whether adb is root.
    Known(bool),
}

/// Acquire adb root again. A reboot drops adbd back to the `shell` user, and
/// setprop, chown and chcon then seem to succeed and do nothing. One restart is
/// tried, and only where adb is not root already.
pub fn ensure_root(stage: RootStage, reply: Option<&str>) -> (r: RootStage)
    ensures
        r == (match stage {
            RootStage::Known(b) => RootStage::Known(b),
            _ => if reply is Some && text::trimmed(reply->0@) == "0"@ {
                RootStage::Known(true)
            } else if stage is Ask {
                RootStage::Restart
            } else {
                RootStage::Known(false)
            },
        }),
{
    match stage {
        RootStage::Known(b) => RootStage::Known(b),
        RootStage::Ask => if says_root(reply) {
            RootStage::Known(true)
        } else {
            RootStage::Restart
        },
        RootStage::Restart => RootStage::Known(says_root(reply)),
    }
}

/// Whether `adb connect` says that it connected.
pub fn connect(reply: &str) -> (r: bool)
    ensures
        r == text::holds(reply@, "connected"@),
{
    text::contains(reply, "connected")
}

/// What a puck says about itself.
#[derive(Debug)]
pub struct PuckStatus {
    pub reachable: bool,
    /// E.g. "6DOF": what Insight itself reports.
    pub tracking: String,
    pub tracking_valid: bool,
    pub battery_pct: i32,
    pub tracker_running: bool,
    pub guardian_disabled: bool,
    /// An app-root kill-switch VPN eats every packet while the tracker looks
    /// perfectly healthy.
    pub vpn_trap: bool,
    /// Root-node uuid of the puck's current map context. Pucks sharing a map
    /// report the same root.
    pub map_root: String,
    /// Whether that context is persistent. Only a loaded persistent map
    /// colocates.
    pub map_persistent: bool,
}

/// What a status says.
#[verifier::ext_equal]
pub ghost struct StatusView {
    pub reachable: bool,
    pub tracking: Seq<char>,
    pub tracking_valid: bool,
    pub battery_pct: i32,
    pub tracker_running: bool,
    pub guardian_disabled: bool,
    pub vpn_trap: bool,
    pub map_root: Seq<char>,
    pub map_persistent: bool,
}

impl View for PuckStatus {
    type V = StatusView;

    open spec fn view(&self) -> StatusView {
        StatusView {
            reachable: self.reachable,
            tracking: self.tracking@,
            tracking_valid: self.tracking_valid,
            battery_pct: self.battery_pct,
            tracker_running: self.tracker_running,
            guardian_disabled: self.guardian_disabled,
            vpn_trap: self.vpn_trap,
            map_root: self.map_root@,
            map_persistent: self.map_persistent,
        }
    }
}

impl Clone for PuckStatus {
    fn clone(&self) -> (r: PuckStatus)
        ensures
            r@ == self@,
    {
        PuckStatus {
            reachable: self.reachable,
            tracking: self.tracking.clone(),
            tracking_valid: self.tracking_valid,
            battery_pct: self.battery_pct,
            tracker_running: self.tracker_running,
            guardian_disabled: self.guardian_disabled,
            vpn_trap: self.vpn_trap,
            map_root: self.map_root.clone(),
            map_persistent: self.map_persistent,
        }
    }
}

impl StatusView {
    /// What is known of a puck that does not answer.
    pub open spec fn silent() -> StatusView {
        StatusView {
            reachable: false,
            tracking: Seq::empty(),
            tracking_valid: false,
            battery_pct: 0,
            tracker_running: false,
            guardian_disabled: false,
            vpn_trap: false,
            map_root: Seq::empty(),
            map_persistent: false,
        }
    }

    /// Insight tracks at 6DOF with a valid pose.
    pub open spec fn tracks(self) -> bool {
        self.tracking == "6DOF"@ && self.tracking_valid
    }

    /// The puck is on a persistent map.
    pub open spec fn mapped(self) -> bool {
        self.map_persistent && self.map_root.len() > 0
    }
}

impl PuckStatus {
    /// Insight tracks at 6DOF with a valid pose.
    pub fn tracks(&self) -> (r: bool)
        ensures
            r == self@.tracks(),
    {
        text::same(self.tracking.as_str(), "6DOF") && self.tracking_valid
    }

    /// The puck is on a persistent map.
    pub fn mapped(&self) -> (r: bool)
        ensures
            r == self@.mapped(),
    {
        self.map_persistent && self.map_root.as_str().unicode_len() > 0
    }
}

impl Default for PuckStatus {
    fn default() -> (r: PuckStatus)
        ensures
            r@ == StatusView::silent(),
    {
        let tracking = String::new();
        let map_root = String::new();
        proof {
            assert(tracking@ =~= Seq::<char>::empty());
            assert(map_root@ =~= Seq::<char>::empty());
        }
        PuckStatus {
            reachable: false,
            tracking,
            tracking_valid: false,
            battery_pct: 0,
            tracker_running: false,
            guardian_disabled: false,
            vpn_trap: false,
            map_root,
            map_persistent: false,
        }
    }
}

/// The whole-headset status query, one shell round trip.
pub fn status_command() -> (r: &'static str)
    ensures
        r@ == "dumpsys tracking > /data/local/tmp/q2s.txt 2>/dev/null; grep -m1 'Tracking Level' /data/local/tmp/q2s.txt; echo '@@'; pidof com.mapperlocalizer.questtracker; echo '@@'; dumpsys battery | grep -m1 level:; echo '@@'; getprop persist.oculus.guardian_disable; echo '@@'; ip route 2>/dev/null | grep -c tun0; echo '@@'; grep -m1 'Vega Map Context' /data/local/tmp/q2s.txt"@,
{
    "dumpsys tracking > /data/local/tmp/q2s.txt 2>/dev/null; grep -m1 'Tracking Level' /data/local/tmp/q2s.txt; echo '@@'; pidof com.mapperlocalizer.questtracker; echo '@@'; dumpsys battery | grep -m1 level:; echo '@@'; getprop persist.oculus.guardian_disable; echo '@@'; ip route 2>/dev/null | grep -c tun0; echo '@@'; grep -m1 'Vega Map Context' /data/local/tmp/q2s.txt"
}

/// The `i`-th part of a status reply.
pub open spec fn part(parts: Seq<Seq<char>>, i: int) -> Option<Seq<char>> {
    if i < parts.len() {
        Some(parts[i])
    } else {
        None
    }
}

/// The word after "Tracking Level:", empty where there is none.
pub open spec fn level_in(p: Seq<char>) -> Seq<char> {
    match text::rest_after(p, "Tracking Level:"@) {
        Some(rest) => text::first_word_of(rest),
        None => Seq::empty(),
    }
}

/// The number after "level:", zero where there is none.
pub open spec fn battery_in(p: Seq<char>) -> int {
    match text::rest_after(p, "level:"@) {
        Some(rest) => match text::signed_in(text::trimmed(rest), i32::MAX as nat) {
            Some(n) => n,
            None => 0,
        },
        None => 0,
    }
}

/// The whole uuid after "topNodeUid ", empty where there is none.
pub open spec fn root_in(p: Seq<char>) -> Seq<char> {
    match text::rest_after(p, "topNodeUid "@) {
        Some(rest) => text::first_field(rest),
        None => Seq::empty(),
    }
}

/// What a status reply says.
pub open spec fn read_status(reply: Option<Seq<char>>) -> StatusView {
    match reply {
        None => StatusView::silent(),
        Some(out) => if text::trimmed(out).len() == 0 {
            StatusView::silent()
        } else {
            let parts = text::pieces(out, "@@"@);
            StatusView {
                reachable: true,
                tracking: match part(parts, 0) {
                    Some(p) => level_in(p),
                    None => Seq::empty(),
                },
                tracking_valid: match part(parts, 0) {
                    Some(p) => text::holds(p, "Valid: Yes"@),
                    None => false,
                },
                tracker_running: match part(parts, 1) {
                    Some(p) => text::trimmed(p).len() > 0,
                    None => false,
                },
                battery_pct: match part(parts, 2) {
                    Some(p) => battery_in(p) as i32,
                    None => 0,
                },
                guardian_disabled: match part(parts, 3) {
                    Some(p) => text::trimmed(p) == "1"@,
                    None => false,
                },
                vpn_trap: match part(parts, 4) {
                    Some(p) => text::trimmed(p) != "0"@ && text::trimmed(p).len() > 0,
                    None => false,
                },
                map_root: match part(parts, 5) {
                    Some(p) => root_in(p),
                    None => Seq::empty(),
                },
                map_persistent: match part(parts, 5) {
                    Some(p) => text::holds(p, "(persistent)"@),
                    None => false,
                },
            }
        },
    }
}

/// Read the reply to the status query; no reply, or a blank one, is a puck that
/// does not answer.
///
/// The full root uuid is kept: it is the success criterion for a map transplant,
/// and eight characters of it are a display convenience, not an identity.
pub fn status(reply: Option<&str>) -> (r: PuckStatus)
    ensures
        r@ == read_status(
            match reply {
                Some(s) => Some(s@),
                None => None,
            },
        ),
{
    let out = match reply {
        None => {
            return PuckStatus::default();
        },
        Some(s) => s,
    };
    if text::trim(out).unicode_len() == 0 {
        return PuckStatus::default();
    }
    proof {
        reveal_strlit("@@");
    }
    let parts = text::split(out, "@@");
    let ghost all = text::pieces(out@, "@@"@);
    proof {
        assert(forall|i: int| 0 <= i < parts@.len() ==> (#[trigger] parts@[i])@ == all[i]) by {
            assert(parts@.map_values(|x: &str| x@) == all);
            assert forall|i: int| 0 <= i < parts@.len() implies (#[trigger] parts@[i])@ == all[i] by {
                assert(parts@.map_values(|x: &str| x@)[i] == parts@[i]@);
            }
        }
        assert(parts@.len() == all.len()) by {
            assert(parts@.map_values(|x: &str| x@).len() == parts@.len());
        }
    }
    let mut st = PuckStatus::default();
    st.reachable = true;
    if let Some(rest) = text::after_first(parts[0], "Tracking Level:") {
        st.tracking = text::first_word(rest).to_string();
    }
    st.tracking_valid = text::contains(parts[0], "Valid: Yes");
    if parts.len() > 1 {
        st.tracker_running = text::trim(parts[1]).unicode_len() > 0;
    }
    if parts.len() > 2 {
        if let Some(rest) = text::after_first(parts[2], "level:") {
            st.battery_pct = match text::parse_signed(text::trim(rest), 0x7FFF_FFFF) {
                Some(n) => n as i32,
                None => 0,
            };
        }
    }
    if parts.len() > 3 {
        st.guardian_disabled = text::same(text::trim(parts[3]), "1");
    }
    if parts.len() > 4 {
        let p = text::trim(parts[4]);
        st.vpn_trap = !text::same(p, "0") && p.unicode_len() > 0;
    }
    if parts.len() > 5 {
        if let Some(rest) = text::after_first(parts[5], "topNodeUid ") {
            st.map_root = text::field(rest).to_string();
        }
        st.map_persistent = text::contains(parts[5], "(persistent)");
    }
    st
}

/// The short form of a map root, for display.
pub fn short_root(root: &str) -> (r: String)
    ensures
        r@ == text::shortened(root@, 8),
{
    text::shorten(root, 8)
}

/// Whether guardian is enabled, by a reply with a status trailer that counts the
/// disabled packages named so. Counting none exits with 1, which is an answer and
/// no failure: guardian is enabled.
pub open spec fn guardian_answer(reply: Seq<char>) -> Result<bool, FaultView> {
    match checked(reply) {
        Ok(body) => Ok(text::trimmed(body) == "0"@),
        Err(e) => match e {
            FaultView::Remote(code, body) => if code == 1 && text::trimmed(body) == "0"@ {
                Ok(true)
            } else {
                Err(e)
            },
            _ => Err(e),
        },
    }
}

/// Whether guardian is enabled, by the raw reply to [`guardian_query`] as a
/// [`checked_command`].
pub fn guardian_enabled(reply: &str) -> (r: Result<bool, FleetError>)
    ensures
        match r {
            Ok(b) => guardian_answer(reply@) == Ok::<bool, FaultView>(b),
            Err(e) => guardian_answer(reply@) == Err::<bool, FaultView>(e@),
        },
{
    match shell_checked(reply) {
        Ok(body) => Ok(text::same(text::trim(body.as_str()), "0")),
        Err(FleetError::Remote { code, out }) => if code == 1 && text::same(
            text::trim(out.as_str()),
            "0",
        ) {
            Ok(true)
        } else {
            Err(FleetError::Remote { code, out })
        },
        Err(e) => Err(e),
    }
}

/// The query that [`guardian_enabled`] reads.
pub fn guardian_query() -> (r: &'static str)
    ensures
        r@ == "pm list packages -d 2>/dev/null | grep -c oculus.guardian"@,
{
    "pm list packages -d 2>/dev/null | grep -c oculus.guardian"
}

/// The query for the headset pose in its Insight world frame.
pub fn pose_command() -> (r: &'static str)
    ensures
        r@ == "dumpsys tracking > /data/local/tmp/q2p.txt 2>/dev/null; grep -A4 '  Hmd:' /data/local/tmp/q2p.txt"@,
{
    "dumpsys tracking > /data/local/tmp/q2p.txt 2>/dev/null; grep -A4 '  Hmd:' /data/local/tmp/q2p.txt"
}

/// The trimmed fields between `tag` and the next closing bracket.
pub open spec fn fields_in(s: Seq<char>, tag: Seq<char>) -> Option<Seq<Seq<char>>> {
    match text::rest_after(s, tag) {
        None => None,
        Some(rest) => match text::first_at(rest, ")"@, 0) {
            None => None,
            Some(end) => Some(
                text::pieces(rest.take(end), ","@).map_values(|x: Seq<char>| text::trimmed(x)),
            ),
        },
    }
}

/// The trimmed fields between `tag` and the next closing bracket.
pub fn fields_after<'a>(s: &'a str, tag: &str) -> (r: Option<Vec<&'a str>>)
    ensures
        match r {
            Some(v) => fields_in(s@, tag@) == Some(v@.map_values(|x: &str| x@)),
            None => fields_in(s@, tag@) is None,
        },
{
    proof {
        reveal_strlit(",");
    }
    match text::after_first(s, tag) {
        None => None,
        Some(rest) => match text::find(rest, ")") {
            None => None,
            Some(end) => {
                let body = text::before(rest, end);
                let raw = text::split(body, ",");
                let ghost all = text::pieces(body@, ","@);
                let mut out: Vec<&'a str> = Vec::new();
                let mut i: usize = 0;
                while i < raw.len()
                    invariant
                        i <= raw.len(),
                        out@.len() == i,
                        forall|k: int|
                            0 <= k < i ==> (#[trigger] out@[k])@ == text::trimmed(raw@[k]@),
                    decreases raw.len() - i,
                {
                    out.push(text::trim(raw[i]));
                    i = i + 1;
                }
                proof {
                    let want = all.map_values(|x: Seq<char>| text::trimmed(x));
                    assert(raw@.map_values(|x: &str| x@) == all);
                    assert(raw@.map_values(|x: &str| x@).len() == raw@.len());
                    assert forall|k: int| 0 <= k < out@.len() implies out@.map_values(
                        |x: &str| x@,
                    )[k] == want[k] by {
                        assert(raw@.map_values(|x: &str| x@)[k] == raw@[k]@);
                    }
                    assert(out@.map_values(|x: &str| x@) =~= want);
                }
                Some(out)
            },
        },
    }
}

/// A pose reply is only read where Insight tracks and the pose is valid.
pub open spec fn pose_readable(out: Seq<char>) -> bool {
    text::holds(out, "6DOF"@) && text::holds(out, "Valid: Yes"@)
}

/// The fields of a pose reply, rotation and translation, still as text.
pub fn dumpsys_pose<'a>(reply: Option<&'a str>) -> (r: Option<(Vec<&'a str>, Vec<&'a str>)>)
    ensures
        match r {
            Some((rot, tr)) => reply is Some && pose_readable(reply->0@) && fields_in(
                reply->0@,
                "rot=("@,
            ) == Some(rot@.map_values(|x: &str| x@)) && fields_in(reply->0@, "trans=("@) == Some(
                tr@.map_values(|x: &str| x@),
            ),
            None => reply is None || !pose_readable(reply->0@) || fields_in(
                reply->0@,
                "rot=("@,
            ) is None || fields_in(reply->0@, "trans=("@) is None,
        },
{
    match reply {
        None => None,
        Some(out) => if !text::contains(out, "6DOF") || !text::contains(out, "Valid: Yes") {
            None
        } else {
            match fields_after(out, "rot=(") {
                None => None,
                Some(rot) => match fields_after(out, "trans=(") {
                    None => None,
                    Some(tr) => Some((rot, tr)),
                },
            }
        },
    }
}

/// The pose that four rotation and three translation numbers make, in the order
/// in which they were reported.
pub fn world_pose(rot: &Vec<Single>, tr: &Vec<Single>) -> (r: Option<Pose>)
    ensures
        match r {
            Some(p) => rot@.len() == 4 && tr@.len() == 3 && p.p@ == tr@ && p.q@ == rot@,
            None => rot@.len() != 4 || tr@.len() != 3,
        },
{
    if rot.len() == 4 && tr.len() == 3 {
        let p = Pose { p: [tr[0], tr[1], tr[2]], q: [rot[0], rot[1], rot[2], rot[3]] };
        proof {
            assert(p.p@ =~= tr@);
            assert(p.q@ =~= rot@);
        }
        Some(p)
    } else {
        None
    }
}

/// The LED colour a role identifies with. A full-on/off tri-colour LED yields
/// seven distinguishable colours; the flash count tells the roles apart.
pub open spec fn led(device: u8) -> (u8, u8, u8, Seq<char>) {
    match device % 7 {
        0 => (0, 255, 255, "cyan"@),
        1 => (255, 255, 0, "yellow"@),
        2 => (0, 255, 0, "green"@),
        3 => (255, 0, 255, "magenta"@),
        4 => (255, 0, 0, "red"@),
        5 => (0, 0, 255, "blue"@),
        _ => (255, 255, 255, "white"@),
    }
}

/// The LED colour a role identifies with, and its name.
pub fn slot_led_rgb(device: u8) -> (r: (u8, u8, u8, &'static str))
    ensures
        (r.0, r.1, r.2, r.3@) == led(device),
{
    let k: u8 = device % 7;
    if k == 0 {
        (0, 255, 255, "cyan")
    } else if k == 1 {
        (255, 255, 0, "yellow")
    } else if k == 2 {
        (0, 255, 0, "green")
    } else if k == 3 {
        (255, 0, 255, "magenta")
    } else if k == 4 {
        (255, 0, 0, "red")
    } else if k == 5 {
        (0, 0, 255, "blue")
    } else {
        (255, 255, 255, "white")
    }
}

/// Colour and flash count together tell every two roles apart.
pub proof fn flashes_identify_a_role(a: crate::mpt1::Device, b: crate::mpt1::Device)
    ensures
        led(a.code()) == led(b.code()) && a.code() + 1 == b.code() + 1 <==> a == b,
{
    crate::mpt1::every_role_keeps_its_id(a, b.code());
}

/// One colour of the blink scripts.
pub open spec fn paint(r: u8, g: u8, b: u8) -> Seq<char> {
    "echo "@ + text::decimal_of(r as nat) + " > $L/red/brightness; echo "@ + text::decimal_of(
        g as nat,
    ) + " > $L/green/brightness; echo "@ + text::decimal_of(b as nat) + " > $L/blue/brightness;"@
}

fn paint_text(r: u8, g: u8, b: u8) -> (s: String)
    ensures
        s@ == paint(r, g, b),
{
    let mut s = text::glue3(
        "echo ",
        text::decimal(r as u64).as_str(),
        " > $L/red/brightness; echo ",
    );
    s.append(text::decimal(g as u64).as_str());
    s.append(" > $L/green/brightness; echo ");
    s.append(text::decimal(b as u64).as_str());
    s.append(" > $L/blue/brightness;");
    s
}

/// The script that blinks the front LED for about `secs` seconds: it saves the
/// colour, rewrites it at 2 Hz, and restores it even if adb drops mid-blink. A
/// lock file makes an overlapping blink inherit the saved colour.
pub fn blink(r: u8, g: u8, b: u8, secs: u32) -> (s: String)
    ensures
        s@ == "L=/sys/class/leds; LK=/data/local/tmp/q1blink.state;          if [ -f $LK ]; then read sr sg sb < $LK; else            sr=$(cat $L/red/brightness); sg=$(cat $L/green/brightness); sb=$(cat $L/blue/brightness);            echo \"$sr $sg $sb\" > $LK; fi;         restore(){ echo $sr > $L/red/brightness; echo $sg > $L/green/brightness;                      echo $sb > $L/blue/brightness; rm -f $LK; };          trap restore EXIT INT TERM;          i=0; while [ $i -lt "@
            + text::decimal_of(
            (if secs >= 1 {
                secs as nat
            } else {
                1
            }) * 2,
        ) + " ]; do            "@ + paint(r, g, b)
            + "            sleep 0.25;            echo 0 > $L/red/brightness; echo 0 > $L/green/brightness; echo 0 > $L/blue/brightness;            sleep 0.25; i=$((i+1)); done; restore"@,
{
    let cycles: u64 = (if secs >= 1 {
        secs as u64
    } else {
        1
    }) * 2;
    let mut s = text::glue3(
        "L=/sys/class/leds; LK=/data/local/tmp/q1blink.state;          if [ -f $LK ]; then read sr sg sb < $LK; else            sr=$(cat $L/red/brightness); sg=$(cat $L/green/brightness); sb=$(cat $L/blue/brightness);            echo \"$sr $sg $sb\" > $LK; fi;         restore(){ echo $sr > $L/red/brightness; echo $sg > $L/green/brightness;                      echo $sb > $L/blue/brightness; rm -f $LK; };          trap restore EXIT INT TERM;          i=0; while [ $i -lt ",
        text::decimal(cycles).as_str(),
        " ]; do            ",
    );
    s.append(paint_text(r, g, b).as_str());
    s.append(
        "            sleep 0.25;            echo 0 > $L/red/brightness; echo 0 > $L/green/brightness; echo 0 > $L/blue/brightness;            sleep 0.25; i=$((i+1)); done; restore",
    );
    s
}

/// The script that identifies a puck physically: it flashes the role colour
/// `device + 1` times, twice over. The count is the reliable part.
pub fn identify(device: u8) -> (s: String)
    ensures
        s@ == "L=/sys/class/leds; LK=/data/local/tmp/q1blink.state;\nif [ -f $LK ]; then read sr sg sb < $LK; else\n  sr=$(cat $L/red/brightness); sg=$(cat $L/green/brightness); sb=$(cat $L/blue/brightness);\n  echo \"$sr $sg $sb\" > $LK; fi;\nrestore(){ echo $sr > $L/red/brightness; echo $sg > $L/green/brightness;\n            echo $sb > $L/blue/brightness; rm -f $LK; };\ntrap restore EXIT INT TERM;\ngrp=0; while [ $grp -lt 2 ]; do\n  i=0; while [ $i -lt "@
            + text::decimal_of((device + 1) as nat) + " ]; do\n    "@ + paint(
            led(device).0,
            led(device).1,
            led(device).2,
        )
            + "\n    sleep 0.18;\n    echo 0 > $L/red/brightness; echo 0 > $L/green/brightness; echo 0 > $L/blue/brightness;\n    sleep 0.18; i=$((i+1)); done;\n  sleep 0.9; grp=$((grp+1)); done; restore"@,
{
    let (r, g, b, _name) = slot_led_rgb(device);
    let mut s = text::glue3(
        "L=/sys/class/leds; LK=/data/local/tmp/q1blink.state;\nif [ -f $LK ]; then read sr sg sb < $LK; else\n  sr=$(cat $L/red/brightness); sg=$(cat $L/green/brightness); sb=$(cat $L/blue/brightness);\n  echo \"$sr $sg $sb\" > $LK; fi;\nrestore(){ echo $sr > $L/red/brightness; echo $sg > $L/green/brightness;\n            echo $sb > $L/blue/brightness; rm -f $LK; };\ntrap restore EXIT INT TERM;\ngrp=0; while [ $grp -lt 2 ]; do\n  i=0; while [ $i -lt ",
        text::decimal(device as u64 + 1).as_str(),
        " ]; do\n    ",
    );
    s.append(paint_text(r, g, b).as_str());
    s.append(
        "\n    sleep 0.18;\n    echo 0 > $L/red/brightness; echo 0 > $L/green/brightness; echo 0 > $L/blue/brightness;\n    sleep 0.18; i=$((i+1)); done;\n  sleep 0.9; grp=$((grp+1)); done; restore",
    );
    s
}

/// The request for a puck's capture statistics.
pub fn stats_request(ip: &str) -> (r: String)
    ensures
        r@ == "GET /stats HTTP/1.0\r\nHost: "@ + ip@ + "\r\nConnection: close\r\n\r\n"@,
{
    text::glue3("GET /stats HTTP/1.0\r\nHost: ", ip, "\r\nConnection: close\r\n\r\n")
}

/// A counter that advances only while the puck is really capturing: `skipped`
/// grows with every captured frameset and stops dead when capture stops.
pub fn capture_counter(reply: &str) -> (r: Option<u64>)
    ensures
        match r {
            Some(n) => text::rest_after(reply@, "\"skipped\":"@) is Some && text::unsigned_in(
                text::leading_digits(text::rest_after(reply@, "\"skipped\":"@)->0),
                u64::MAX as nat,
            ) == Some(n as nat),
            None => text::rest_after(reply@, "\"skipped\":"@) is None || text::unsigned_in(
                text::leading_digits(text::rest_after(reply@, "\"skipped\":"@)->0),
                u64::MAX as nat,
            ) is None,
        },
{
    match text::after_first(reply, "\"skipped\":") {
        None => None,
        Some(rest) => text::parse_unsigned(text::digits(rest), u64::MAX),
    }
}

/// The request for the frame a puck is serving.
pub fn snapshot_request(ip: &str) -> (r: String)
    ensures
        r@ == "GET /snapshot HTTP/1.0\r\nHost: "@ + ip@ + "\r\nConnection: close\r\n\r\n"@,
{
    text::glue3("GET /snapshot HTTP/1.0\r\nHost: ", ip, "\r\nConnection: close\r\n\r\n")
}

/// The two readings that give the age of the frame a puck is serving, still as
/// text: when it was captured, in nanoseconds since boot, and the uptime in
/// seconds.
pub fn snapshot_age_secs<'a>(head: &'a str, uptime: &'a str) -> (r: Option<(&'a str, &'a str)>)
    ensures
        match r {
            Some((cap, up)) => text::rest_after(head@, "X-Capture-Boot-Ns:"@) is Some && cap@
                == text::leading_digits(
                text::front_trimmed(text::rest_after(head@, "X-Capture-Boot-Ns:"@)->0),
            ) && up@ == text::first_word_of(uptime@) && up@.len() > 0,
            None => text::rest_after(head@, "X-Capture-Boot-Ns:"@) is None || text::first_word_of(
                uptime@,
            ).len() == 0,
        },
{
    match text::after_first(head, "X-Capture-Boot-Ns:") {
        None => None,
        Some(rest) => {
            let cap = text::digits(text::trim_start(rest));
            let up = text::first_word(uptime);
            if up.unicode_len() == 0 {
                None
            } else {
                Some((cap, up))
            }
        },
    }
}

/// What a puck's persisted map amounts to.
#[derive(Debug, Default, Clone, Copy, PartialEq, Eq, Structural)]
pub struct MapdbInfo {
    pub files: usize,
    pub bytes: u64,
    /// Last write, unix seconds. 0 if the directory is empty.
    pub mtime_unix: i64,
}

impl MapdbInfo {
    pub fn is_empty(&self) -> (r: bool)
        ensures
            r == (self.files == 0),
    {
        self.files == 0
    }
}

/// The query for file count, size in kilobytes and last write of the map.
pub fn mapdb_query() -> (r: &'static str)
    ensures
        r@ == "ls /vision/insideout/mapdb/*.mapdata 2>/dev/null | wc -l; du -sk /vision/insideout/mapdb 2>/dev/null | cut -f1; stat -c %Y /vision/insideout/mapdb 2>/dev/null"@,
{
    "ls /vision/insideout/mapdb/*.mapdata 2>/dev/null | wc -l; du -sk /vision/insideout/mapdb 2>/dev/null | cut -f1; stat -c %Y /vision/insideout/mapdb 2>/dev/null"
}

/// The unsigned number on line `i` of a reply, zero where there is none.
pub open spec fn count_on(out: Seq<char>, i: int, max: nat) -> nat {
    match part(text::pieces(out, "\n"@), i) {
        Some(l) => match text::unsigned_in(text::trimmed(l), max) {
            Some(n) => n,
            None => 0,
        },
        None => 0,
    }
}

/// The signed number on line `i` of a reply, zero where there is none.
pub open spec fn time_on(out: Seq<char>, i: int) -> int {
    match part(text::pieces(out, "\n"@), i) {
        Some(l) => match text::signed_in(text::trimmed(l), i64::MAX as nat) {
            Some(n) => n,
            None => 0,
        },
        None => 0,
    }
}

/// The map that a reply describes. Sizes are counted modulo 2^64 bytes. Of an
/// empty directory the time tells nothing, and none is given.
pub open spec fn read_mapdb(out: Seq<char>) -> MapdbInfo {
    MapdbInfo {
        files: count_on(out, 0, usize::MAX as nat) as usize,
        bytes: (count_on(out, 1, u64::MAX as nat) * 1024 % 0x1_0000_0000_0000_0000) as u64,
        mtime_unix: if count_on(out, 0, usize::MAX as nat) == 0 {
            0
        } else {
            time_on(out, 2) as i64
        },
    }
}

/// Read the reply to [`mapdb_query`].
pub fn mapdb_info(out: &str) -> (r: MapdbInfo)
    ensures
        r == read_mapdb(out@),
{
    proof {
        reveal_strlit("\n");
    }
    let lines = text::split(out, "\n");
    let ghost all = text::pieces(out@, "\n"@);
    proof {
        assert(lines@.map_values(|x: &str| x@) == all);
        assert(lines@.map_values(|x: &str| x@).len() == lines@.len());
        assert forall|i: int| 0 <= i < lines@.len() implies (#[trigger] lines@[i])@ == all[i] by {
            assert(lines@.map_values(|x: &str| x@)[i] == lines@[i]@);
        }
    }
    let files: usize = match text::parse_unsigned(text::trim(lines[0]), usize::MAX as u64) {
        Some(n) => n as usize,
        None => 0,
    };
    let mut kilobytes: u64 = 0;
    if lines.len() > 1 {
        kilobytes =
        match text::parse_unsigned(text::trim(lines[1]), u64::MAX) {
            Some(n) => n,
            None => 0,
        };
    }
    let mut mtime_unix: i64 = 0;
    if files > 0 && lines.len() > 2 {
        mtime_unix =
        match text::parse_signed(text::trim(lines[2]), i64::MAX) {
            Some(n) => n,
            None => 0,
        };
    }
    let bytes: u64 = ((kilobytes as u128 * 1024) % 0x1_0000_0000_0000_0000) as u64;
    MapdbInfo { files, bytes, mtime_unix }
}

/// Whether a file name has the extension of a map file.
pub open spec fn is_mapdata(name: Seq<char>) -> bool {
    match text::last_at(name, "."@, name.len() - "."@.len()) {
        Some(i) => i > 0 && name.skip(i + 1) == "mapdata"@,
        None => false,
    }
}

/// How many of the first `n` names are map files.
pub open spec fn mapdata_among(names: Seq<String>, n: nat) -> nat
    decreases n,
{
    if n == 0 {
        0
    } else {
        mapdata_among(names, (n - 1) as nat) + if is_mapdata(names[n - 1]@) {
            1nat
        } else {
            0nat
        }
    }
}

/// How many of a directory's file names are map files.
pub fn local_mapdata_count(names: &Vec<String>) -> (r: usize)
    ensures
        r == mapdata_among(names@, names@.len()),
        r <= names@.len(),
{
    proof {
        reveal_strlit(".");
    }
    let mut n: usize = 0;
    let mut i: usize = 0;
    while i < names.len()
        invariant
            i <= names.len(),
            n <= i,
            n == mapdata_among(names@, i as nat),
            "."@.len() == 1,
        decreases names.len() - i,
    {
        let name = names[i].as_str();
        let hit = match text::rfind(name, ".") {
            Some(k) => {
                let _len: usize = name.unicode_len();
                k > 0 && text::same(text::from(name, k + 1), "mapdata")
            },
            None => false,
        };
        if hit {
            n = n + 1;
        }
        i = i + 1;
    }
    n
}

/// What `adb push` is given to send a directory's contents.
pub fn push_dir(local: &str) -> (r: String)
    ensures
        r@ == local@ + "/."@,
{
    text::glue(local, "/.")
}

/// The last part of a remote path, under which a pull lands where its target
/// directory exists already.
pub open spec fn leaf_of(remote: Seq<char>) -> Seq<char> {
    match text::last_at(remote, "/"@, remote.len() - "/"@.len()) {
        Some(i) => remote.skip(i + 1),
        None => remote,
    }
}

/// Where a pulled directory landed: under its own name where that is a
/// directory, else directly in the target.
pub fn pull_dir(remote: &str) -> (r: &str)
    ensures
        r@ == leaf_of(remote@),
{
    proof {
        reveal_strlit("/");
    }
    match text::rfind(remote, "/") {
        Some(i) => {
            let _len: usize = remote.unicode_len();
            text::from(remote, i + 1)
        },
        None => remote,
    }
}

/// What a checked command prints is read as it ended: its output and the status
/// behind it, whatever the output holds, with white space after the status. Zero is
/// success; any other status is a failure on the puck, with that output.
pub proof fn a_status_is_read_from_the_end(body: Seq<char>, code: i32, back: Seq<char>)
    requires
        text::all_space(back),
    ensures
        ({
            let reply = body + "@@RC:"@ + text::signed_decimal_of(code as int) + back;
            &&& code == 0 ==> checked(reply) == Ok::<Seq<char>, FaultView>(body)
            &&& code != 0 ==> checked(reply) == Err::<Seq<char>, FaultView>(
                FaultView::Remote(code, body),
            )
        }),
{
    let number = text::signed_decimal_of(code as int);
    lemma_number(code);
    lemma_last_mark(body, number + back);
    assert(body + "@@RC:"@ + number + back =~= body + "@@RC:"@ + (number + back));
    text::trimming_takes_the_ends(Seq::empty(), number, back);
    assert(Seq::<char>::empty() + number + back =~= number + back);
}

/// A status is a number with nothing to trim, and holds no mark.
proof fn lemma_number(code: i32)
    ensures
        ({
            let number = text::signed_decimal_of(code as int);
            &&& number.len() > 0
            &&& !text::is_space(number.first()) && !text::is_space(number.last())
            &&& text::signed_in(number, i32::MAX as nat) == Some(code as int)
            &&& forall|i: int| 0 <= i < number.len() ==> #[trigger] number[i] != '@'
        }),
{
    reveal_strlit("-");
    let number = text::signed_decimal_of(code as int);
    text::a_written_number_reads_back(0, code as int, i32::MAX as nat);
    if code < 0 {
        let digits = text::decimal_of((-(code as int)) as nat);
        text::a_written_number_reads_back((-(code as int)) as nat, 0, 0);
        assert(number =~= "-"@ + digits);
        assert(text::is_digit(digits[digits.len() - 1]));
        assert forall|i: int| 0 <= i < number.len() implies #[trigger] number[i] != '@' by {
            if i > 0 {
                assert(text::is_digit(digits[i - 1]));
            }
        }
    } else {
        text::a_written_number_reads_back(code as nat, 0, 0);
        assert(text::is_digit(number[0]) && text::is_digit(number[number.len() - 1]));
        assert forall|i: int| 0 <= i < number.len() implies #[trigger] number[i] != '@' by {
            assert(text::is_digit(number[i]));
        }
    }
}

/// The last mark is the one before a tail that holds no part of another.
proof fn lemma_last_mark(body: Seq<char>, tail: Seq<char>)
    requires
        forall|i: int| 0 <= i < tail.len() ==> #[trigger] tail[i] != '@',
    ensures
        ({
            let reply = body + "@@RC:"@ + tail;
            &&& "@@RC:"@.len() == 5
            &&& text::last_at(reply, "@@RC:"@, reply.len() - 5) == Some(body.len() as int)
            &&& reply.take(body.len() as int) == body
            &&& reply.skip(body.len() as int + 5) == tail
        }),
{
    reveal_strlit("@@RC:");
    let mark = "@@RC:"@;
    let reply = body + mark + tail;
    let at = body.len() as int;
    assert(reply.subrange(at, at + 5) =~= mark);
    text::the_last_place_is_found(reply, mark, reply.len() - 5);
    assert forall|k: int| at < k <= reply.len() - 5 implies !#[trigger] text::stands_at(
        reply,
        mark,
        k,
    ) by {
        if text::stands_at(reply, mark, k) {
            let there = reply.subrange(k, k + 5);
            assert(there[1] == mark[1]);
            assert(reply[k + 1] == '@');
            let j = k + 1 - at;
            if j < 5 {
                assert(reply[k + 1] == mark[j]);
            } else {
                assert(reply[k + 1] == tail[j - 5]);
            }
        }
    }
    assert(text::stands_at(reply, mark, at));
    assert(reply.take(at) =~= body);
    assert(reply.skip(at + 5) =~= tail);
}

/// A reply without a status is a failure: nothing is taken for done that did not say
/// so.
pub proof fn a_reply_without_status_is_a_failure(reply: Seq<char>)
    requires
        !text::holds(reply, "@@RC:"@),
    ensures
        checked(reply) matches Err(FaultView::Remote(code, _)) && code == -1,
{
    reveal_strlit("@@RC:");
    text::the_first_place_is_found(reply, "@@RC:"@, 0);
    text::the_last_place_is_found(reply, "@@RC:"@, reply.len() - "@@RC:"@.len());
}

/// A status is read part by part: the reply holds its parts between marks, and each
/// part says what it is about, whatever the others say. A reply with nothing in it is
/// a puck that does not answer.
pub proof fn a_status_is_read_part_by_part(out: Seq<char>, parts: Seq<Seq<char>>)
    requires
        text::trimmed(out).len() > 0,
        parts == text::pieces(out, "@@"@),
        parts.len() >= 6,
    ensures
        text::joined(parts, "@@"@) == out,
        ({
            let st = read_status(Some(out));
            &&& st.reachable
            &&& st.tracking_valid <==> text::holds(parts[0], "Valid: Yes"@)
            &&& text::rest_after(parts[0], "Tracking Level:"@) matches Some(rest) ==> st.tracking
                == text::first_word_of(rest)
            &&& st.tracker_running <==> text::trimmed(parts[1]).len() > 0
            &&& st.guardian_disabled <==> text::trimmed(parts[3]) == "1"@
            &&& st.vpn_trap <==> text::trimmed(parts[4]).len() > 0 && text::trimmed(parts[4]) != "0"@
            &&& st.map_persistent <==> text::holds(parts[5], "(persistent)"@)
            &&& text::rest_after(parts[5], "topNodeUid "@) matches Some(rest) ==> st.map_root
                == text::first_field(rest)
            &&& text::rest_after(parts[5], "topNodeUid "@) is None ==> st.map_root.len() == 0
        }),
        !read_status(None).reachable,
        read_status(Some(Seq::empty())) == read_status(None),
{
    reveal_strlit("@@");
    text::the_pieces_make_the_text(out, "@@"@);
    assert(text::trimmed(Seq::<char>::empty()).len() == 0);
}

/// A name is that of a map file where it is something, a point, and "mapdata".
pub proof fn a_map_file_is_known_by_its_name(stem: Seq<char>, tail: Seq<char>)
    requires
        forall|i: int| 0 <= i < tail.len() ==> #[trigger] tail[i] != '.',
    ensures
        is_mapdata(stem + "."@ + tail) <==> stem.len() > 0 && tail == "mapdata"@,
        !is_mapdata(tail),
{
    reveal_strlit(".");
    let dot = "."@;
    let name = stem + dot + tail;
    let at = stem.len() as int;
    text::the_last_place_is_found(name, dot, name.len() - dot.len());
    text::the_last_place_is_found(tail, dot, tail.len() - dot.len());
    assert(name.subrange(at, at + 1) =~= dot);
    assert(text::stands_at(name, dot, at));
    assert forall|k: int| at < k <= name.len() - 1 implies !#[trigger] text::stands_at(
        name,
        dot,
        k,
    ) by {
        if text::stands_at(name, dot, k) {
            assert(name.subrange(k, k + 1)[0] == dot[0]);
            assert(name[k] == tail[k - at - 1]);
        }
    }
    assert forall|k: int| k <= tail.len() - 1 implies !#[trigger] text::stands_at(
        tail,
        dot,
        k,
    ) by {
        if text::stands_at(tail, dot, k) {
            assert(tail.subrange(k, k + 1)[0] == dot[0]);
            assert(tail[k] == '.');
        }
    }
    assert(text::last_at(name, dot, name.len() - dot.len()) == Some(at));
    assert(name.skip(at + 1) =~= tail);
}

} // verus!
