//! What the command line does and prints.

use crate::config::{id_taken, next_free_id, roster_view, PuckCfg, PuckView, FIRST_ID};
use crate::fleet;
use crate::fleet::{MapdbInfo, PuckStatus, StatusView};
use crate::ieee::Single;
use crate::ingest::{Sample, SlotState};
use crate::monitor::texts;
use crate::mpt1::Device;
use crate::service::notice::{words, Figure, Notice, PieceView};
use crate::service::role::{find_puck, roster_at};
use crate::text;
use vstd::prelude::*;

verus! {

/// What is asked for.
#[derive(Debug, Clone, Copy, PartialEq, Eq, Structural)]
pub enum Command {
    Status,
    Up,
    Bridge,
    Run,
    Identify,
    Provision,
    Mapdb,
    /// Nothing that is known: how to ask is to be said.
    Usage,
}

/// What a word asks for.
pub open spec fn command_of(word: Seq<char>) -> Command {
    if word == "status"@ {
        Command::Status
    } else if word == "up"@ {
        Command::Up
    } else if word == "bridge"@ {
        Command::Bridge
    } else if word == "run"@ {
        Command::Run
    } else if word == "identify"@ {
        Command::Identify
    } else if word == "provision"@ {
        Command::Provision
    } else if word == "mapdb"@ {
        Command::Mapdb
    } else {
        Command::Usage
    }
}

/// What the arguments ask for: the first one behind the program's name.
pub fn command(args: &Vec<String>) -> (r: Command)
    ensures
        r == (if args@.len() > 1 {
            command_of(args@[1]@)
        } else {
            command_of("help"@)
        }),
{
    let word = if args.len() > 1 {
        args[1].as_str()
    } else {
        "help"
    };
    if text::same(word, "status") {
        Command::Status
    } else if text::same(word, "up") {
        Command::Up
    } else if text::same(word, "bridge") {
        Command::Bridge
    } else if text::same(word, "run") {
        Command::Run
    } else if text::same(word, "identify") {
        Command::Identify
    } else if text::same(word, "provision") {
        Command::Provision
    } else if text::same(word, "mapdb") {
        Command::Mapdb
    } else {
        Command::Usage
    }
}

/// The first argument, from `from` on, that announces the configuration file.
pub open spec fn config_flag(args: Seq<Seq<char>>, from: nat) -> Option<nat>
    decreases args.len() - from,
{
    if from >= args.len() {
        None
    } else if args[from as int] == "--config"@ {
        Some(from)
    } else {
        config_flag(args, from + 1)
    }
}

/// The configuration file: the argument behind the first flag, else the usual
/// one.
pub fn config_path(args: &Vec<String>) -> (r: String)
    ensures
        r@ == (match config_flag(texts(args@), 0) {
            Some(i) => if i + 1 < args@.len() {
                args@[i as int + 1]@
            } else {
                "insight-map-loader.json"@
            },
            None => "insight-map-loader.json"@,
        }),
{
    let ghost all = texts(args@);
    let mut i: usize = 0;
    while i < args.len()
        invariant
            i <= args.len(),
            all == texts(args@),
            config_flag(all, 0) == config_flag(all, i as nat),
        decreases args.len() - i,
    {
        if text::same(args[i].as_str(), "--config") {
            if i + 1 < args.len() {
                return args[i + 1].clone();
            }
            return "insight-map-loader.json".to_string();
        }
        i = i + 1;
    }
    "insight-map-loader.json".to_string()
}

/// Whether a map is persistent, in words.
pub open spec fn lasting(persistent: bool) -> Seq<char> {
    if persistent {
        "persistent"@
    } else {
        "transient"@
    }
}

/// What a puck's stored map is reported as, for a puck that is reachable. `now`
/// is in seconds.
pub open spec fn map_report(st: StatusView, info: Result<MapdbInfo, Seq<char>>, now: i64) -> Seq<
    char,
> {
    match info {
        Err(e) => "ERROR "@ + e,
        Ok(i) => if i.files == 0 {
            "mapdb EMPTY   context "@ + (if st.map_root.len() == 0 {
                "none"@
            } else {
                text::shortened(st.map_root, 8)
            }) + " ("@ + lasting(st.map_persistent) + ") -- no persistent map to share"@
        } else {
            let age = if i.mtime_unix > 0 {
                now - i.mtime_unix
            } else {
                -1
            };
            text::filled_before(text::decimal_of(i.files as nat), 3) + " files "@
                + text::filled_before(text::decimal_of((i.bytes / 1024) as nat), 6)
                + " KB  written "@ + (if age < 0 {
                "?"@
            } else {
                text::decimal_of(age as nat) + "s ago"@
            }) + "  root "@ + (if st.map_root.len() == 0 {
                "none"@
            } else {
                st.map_root
            }) + " ("@ + lasting(st.map_persistent) + ")"@
        },
    }
}

/// What the answer about a stored map says.
pub open spec fn info_view(r: Result<MapdbInfo, String>) -> Result<MapdbInfo, Seq<char>> {
    match r {
        Ok(i) => Ok(i),
        Err(e) => Err(e@),
    }
}

/// A puck's stored map, in a line. Nothing is asked of a puck that is not
/// reachable, so there `info` is not read.
pub fn mapdb_line(ip: &str, st: &PuckStatus, info: &Result<MapdbInfo, String>, now: i64) -> (r:
    String)
    requires
        now >= 0,
    ensures
        r@ == text::filled_behind(ip@, 16) + " "@ + (if !st@.reachable {
            "unreachable"@
        } else {
            map_report(st@, info_view(*info), now)
        }),
{
    let mut line = text::glue(text::fill_behind(ip, 16).as_str(), " ");
    if !st.reachable {
        line.append("unreachable");
        return line;
    }
    let kind = if st.map_persistent {
        "persistent"
    } else {
        "transient"
    };
    let rootless = st.map_root.as_str().unicode_len() == 0;
    let s = match info {
        Err(e) => text::glue("ERROR ", e.as_str()),
        Ok(i) => if i.is_empty() {
            let root = if rootless {
                "none".to_string()
            } else {
                text::shorten(st.map_root.as_str(), 8)
            };
            text::glue5(
                "mapdb EMPTY   context ",
                root.as_str(),
                " (",
                kind,
                ") -- no persistent map to share",
            )
        } else {
            let age: i64 = if i.mtime_unix > 0 {
                now - i.mtime_unix
            } else {
                -1
            };
            let written = if age < 0 {
                "?".to_string()
            } else {
                text::glue(text::decimal(age as u64).as_str(), "s ago")
            };
            let root = if rootless {
                "none"
            } else {
                st.map_root.as_str()
            };
            let mut s = text::glue5(
                text::fill_before(text::decimal(i.files as u64).as_str(), 3).as_str(),
                " files ",
                text::fill_before(text::decimal(i.bytes / 1024).as_str(), 6).as_str(),
                " KB  written ",
                written.as_str(),
            );
            s.append("  root ");
            s.append(root);
            s.append(" (");
            s.append(kind);
            s.append(")");
            s
        },
    };
    line.append(s.as_str());
    line
}

/// How a truth value is written.
pub open spec fn truth_text(b: bool) -> Seq<char> {
    if b {
        "true"@
    } else {
        "false"@
    }
}

/// What a puck is doing, in a line.
pub fn status_line(ip: &str, device: u8, s: &PuckStatus) -> (r: String)
    ensures
        r@ == (if !s@.reachable {
            text::filled_behind(ip@, 15) + " UNREACHABLE (adb connect "@ + ip@ + ":5555?)"@
        } else {
            text::filled_behind(ip@, 15) + " dev"@ + text::decimal_of(device as nat) + " "@
                + s@.tracking + (if s@.tracking_valid {
                ""@
            } else {
                " INVALID"@
            }) + " batt "@ + text::filled_before(
                text::signed_decimal_of(s@.battery_pct as int),
                3,
            ) + "%  tracker "@ + (if s@.tracker_running {
                "up"@
            } else {
                "DOWN"@
            }) + "  guardian-off "@ + truth_text(s@.guardian_disabled) + (if s@.vpn_trap {
                "  VPN-TRAP: packets are being eaten"@
            } else {
                ""@
            })
        }),
{
    let head = text::fill_behind(ip, 15);
    if !s.reachable {
        let mut line = text::glue3(head.as_str(), " UNREACHABLE (adb connect ", ip);
        line.append(":5555?)");
        return line;
    }
    let mut line = text::glue5(
        head.as_str(),
        " dev",
        text::decimal(device as u64).as_str(),
        " ",
        s.tracking.as_str(),
    );
    line.append(
        if s.tracking_valid {
            ""
        } else {
            " INVALID"
        },
    );
    line.append(" batt ");
    line.append(
        text::fill_before(text::signed_decimal(s.battery_pct as i64).as_str(), 3).as_str(),
    );
    line.append("%  tracker ");
    line.append(
        if s.tracker_running {
            "up"
        } else {
            "DOWN"
        },
    );
    line.append("  guardian-off ");
    line.append(
        if s.guardian_disabled {
            "true"
        } else {
            "false"
        },
    );
    line.append(
        if s.vpn_trap {
            "  VPN-TRAP: packets are being eaten"
        } else {
            ""
        },
    );
    line
}

/// How bringing a puck up went.
#[derive(Debug)]
pub enum UpResult {
    NotConnected,
    Launched,
    Failed(String),
}

/// Bringing a puck up, in a line. The tracker is handed the byte that the puck
/// stamps: its id once it has one, else its role.
pub fn up_line(p: &PuckCfg, result: &UpResult) -> (r: String)
    ensures
        r@ == text::filled_behind(p@.ip, 15) + " "@ + (match *result {
            UpResult::NotConnected => "adb connect failed"@,
            UpResult::Launched => "tracker configured (src="@ + text::decimal_of(
                p@.stamp() as nat,
            ) + ", role="@ + text::decimal_of(p@.device as nat) + ") and launched"@,
            UpResult::Failed(e) => "configure failed: "@ + e@,
        }),
{
    let mut line = text::glue(text::fill_behind(p.ip.as_str(), 15).as_str(), " ");
    let s = match result {
        UpResult::NotConnected => "adb connect failed".to_string(),
        UpResult::Launched => text::glue5(
            "tracker configured (src=",
            text::decimal(p.source() as u64).as_str(),
            ", role=",
            text::decimal(p.device as u64).as_str(),
            ") and launched",
        ),
        UpResult::Failed(e) => text::glue("configure failed: ", e.as_str()),
    };
    line.append(s.as_str());
    line
}

/// Identifying a puck, in a line.
pub fn identify_line(ip: &str, device: u8) -> (r: String)
    ensures
        r@ == text::filled_behind(ip@, 15) + " dev"@ + text::decimal_of(device as nat)
            + " blinking "@ + fleet::led(device).3,
{
    let (_, _, _, name) = fleet::slot_led_rgb(device);
    text::glue5(
        text::fill_behind(ip, 15).as_str(),
        " dev",
        text::decimal(device as u64).as_str(),
        " blinking ",
        name,
    )
}

/// 2.0 degrees: a wider spread means that the puck was moving.
pub const UNSTABLE_DEG: u32 = 0x4000_0000;

/// A bridge was measured: yaw and spread in degrees, and the spread in
/// millimetres.
pub fn measured_line(pairs: usize, yaw_deg: Single, spread: Single, mm: Single) -> (r: Notice)
    ensures
        r@ == seq![
            PieceView::Words(text::decimal_of(pairs as nat) + " pairs, yaw "@),
            PieceView::Signed(Figure::Single(yaw_deg), 2),
            PieceView::Words("°, spread "@),
            PieceView::Plain(Figure::Single(spread), 2),
            PieceView::Words("° / "@),
            PieceView::Plain(Figure::Single(mm), 0),
            PieceView::Words(
                if spread.exceeds(UNSTABLE_DEG) {
                    " mm  UNSTABLE — was it moving?"@
                } else {
                    " mm"@
                },
            ),
        ],
{
    let mut n = Notice::of(text::glue(text::decimal(pairs as u64).as_str(), " pairs, yaw "));
    n.signed(Figure::Single(yaw_deg), 2);
    n.say("°, spread ");
    n.figure(Figure::Single(spread), 2);
    n.say("° / ");
    n.figure(Figure::Single(mm), 0);
    n.say(
        if spread.above(UNSTABLE_DEG) {
            " mm  UNSTABLE — was it moving?"
        } else {
            " mm"
        },
    );
    n
}

/// A bridge could not be measured.
pub fn unmeasured_line(pairs: usize) -> (r: String)
    ensures
        r@ == "FAILED — "@ + text::decimal_of(pairs as nat)
            + " usable pairs (tracker up? 6DOF?)"@,
{
    text::glue3(
        "FAILED — ",
        text::decimal(pairs as u64).as_str(),
        " usable pairs (tracker up? 6DOF?)",
    )
}

/// From which event on the events are new, where any may be: `seen` events were
/// there before.
pub fn new_events(len: usize, seen: usize) -> (r: Option<usize>)
    ensures
        r == (if len == seen {
            None::<usize>
        } else if seen < len {
            Some(seen)
        } else {
            Some(len)
        }),
{
    if len == seen {
        None
    } else if seen < len {
        Some(seen)
    } else {
        Some(len)
    }
}

/// The first `n` live pucks, with their places.
pub open spec fn live_pieces(live: Seq<(Device, [Single; 3])>, n: nat) -> Seq<PieceView>
    decreases n,
{
    if n == 0 {
        Seq::empty()
    } else {
        let (d, p) = live[n - 1];
        live_pieces(live, (n - 1) as nat) + seq![
            PieceView::Words("  "@ + d.name() + ":("@),
            PieceView::Signed(Figure::Single(p[0]), 2),
            PieceView::Words(","@),
            PieceView::Signed(Figure::Single(p[1]), 2),
            PieceView::Words(","@),
            PieceView::Signed(Figure::Single(p[2]), 2),
            PieceView::Words(")"@),
        ]
    }
}

/// The slots among the first `n` that are heard from and not usable.
pub open spec fn slot_pieces(slots: Seq<(Device, SlotState)>, n: nat) -> Seq<PieceView>
    decreases n,
{
    if n == 0 {
        Seq::empty()
    } else {
        let before = slot_pieces(slots, (n - 1) as nat);
        let (d, st) = slots[n - 1];
        match st {
            SlotState::NotTracking => before.push(
                PieceView::Words("  "@ + d.name() + ":NO-TRACK"@),
            ),
            SlotState::Stale => before.push(PieceView::Words("  "@ + d.name() + ":STALE"@)),
            _ => before,
        }
    }
}

/// What the running service is reported as.
pub open spec fn run_pieces(
    emitted: u64,
    live: Seq<(Device, [Single; 3])>,
    unknown: Seq<u8>,
    slots: Seq<(Device, SlotState)>,
    sep: Option<Single>,
    drifted: bool,
) -> Seq<PieceView> {
    words("\n"@ + text::filled_before(text::decimal_of(emitted as nat), 7) + " pkts out"@)
        + live_pieces(live, live.len()) + (if unknown.len() > 0 {
        words("  [UNCLAIMED id "@ + text::listed(unknown) + " — add it to the config]"@)
    } else {
        Seq::empty()
    }) + slot_pieces(slots, slots.len()) + (match sep {
        Some(s) => seq![
            PieceView::Words("  sep "@),
            PieceView::Plain(Figure::Single(s), 3),
            PieceView::Words(" m"@),
        ],
        None => Seq::empty(),
    }) + (if drifted {
        words("  [DRIFTED]"@)
    } else {
        Seq::empty()
    })
}

/// The running service, in a line.
pub fn run_line(
    emitted: u64,
    live: &Vec<(Device, [Single; 3])>,
    unknown: &Vec<u8>,
    slots: &Vec<(Device, SlotState)>,
    sep: Option<Single>,
    drifted: bool,
) -> (r: Notice)
    ensures
        r@ == run_pieces(emitted, live@, unknown@, slots@, sep, drifted),
{
    let mut n = Notice::of(
        text::glue3(
            "\n",
            text::fill_before(text::decimal(emitted).as_str(), 7).as_str(),
            " pkts out",
        ),
    );
    let ghost head = n@;
    let mut i: usize = 0;
    proof {
        assert(head + live_pieces(live@, 0) =~= head);
    }
    while i < live.len()
        invariant
            i <= live.len(),
            n@ == head + live_pieces(live@, i as nat),
        decreases live.len() - i,
    {
        let ghost before = n@;
        let (d, p) = live[i];
        n.say(text::glue3("  ", d.label(), ":(").as_str());
        n.signed(Figure::Single(p[0]), 2);
        n.say(",");
        n.signed(Figure::Single(p[1]), 2);
        n.say(",");
        n.signed(Figure::Single(p[2]), 2);
        n.say(")");
        i = i + 1;
        proof {
            assert(n@ =~= head + live_pieces(live@, i as nat));
        }
    }
    if unknown.len() > 0 {
        n.say(
            text::glue3(
                "  [UNCLAIMED id ",
                text::list(unknown).as_str(),
                " — add it to the config]",
            ).as_str(),
        );
    }
    let ghost mid = n@;
    let mut k: usize = 0;
    proof {
        assert(mid + slot_pieces(slots@, 0) =~= mid);
        assert(mid =~= head + live_pieces(live@, live@.len()) + (if unknown@.len() > 0 {
            words("  [UNCLAIMED id "@ + text::listed(unknown@) + " — add it to the config]"@)
        } else {
            Seq::empty()
        }));
    }
    while k < slots.len()
        invariant
            k <= slots.len(),
            n@ == mid + slot_pieces(slots@, k as nat),
        decreases slots.len() - k,
    {
        let (d, st) = slots[k];
        match st {
            SlotState::NotTracking => {
                n.say(text::glue3("  ", d.label(), ":NO-TRACK").as_str());
            },
            SlotState::Stale => {
                n.say(text::glue3("  ", d.label(), ":STALE").as_str());
            },
            _ => {},
        }
        k = k + 1;
        proof {
            assert(n@ =~= mid + slot_pieces(slots@, k as nat));
        }
    }
    if let Some(s) = sep {
        n.say("  sep ");
        n.figure(Figure::Single(s), 3);
        n.say(" m");
    }
    if drifted {
        n.say("  [DRIFTED]");
    }
    proof {
        assert(n@ =~= run_pieces(emitted, live@, unknown@, slots@, sep, drifted));
    }
    n
}

/// How a source heard on the wire reads: by the role it names where it names
/// one, else by its byte.
pub open spec fn source_name(src: u8) -> Seq<char> {
    match Device::coded(src) {
        Some(d) => d.name(),
        None => "src"@ + text::decimal_of(src as nat),
    }
}

/// What a source heard on the wire is reported as. The age is in milliseconds.
pub open spec fn heard_pieces(src: u8, state: SlotState, sample: Option<Sample>, ms: Single) -> Seq<
    PieceView,
> {
    let head = "  "@ + source_name(src) + "="@;
    match state {
        SlotState::Absent => words(head + "absent"@),
        SlotState::Stale => words(head + "STALE"@),
        SlotState::NotTracking => words(head + "no-track"@),
        SlotState::Live => match sample {
            Some(s) => seq![
                PieceView::Words(head + "("@),
                PieceView::Signed(Figure::Single(s.packet.pose.p[0]), 2),
                PieceView::Words(","@),
                PieceView::Signed(Figure::Single(s.packet.pose.p[1]), 2),
                PieceView::Words(","@),
                PieceView::Signed(Figure::Single(s.packet.pose.p[2]), 2),
                PieceView::Words(") "@),
                PieceView::Plain(Figure::Single(ms), 0),
                PieceView::Words("ms"@),
            ],
            None => words(head),
        },
    }
}

/// A source heard on the wire.
pub fn heard_line(src: u8, state: SlotState, sample: Option<Sample>, ms: Single) -> (r: Notice)
    ensures
        r@ == heard_pieces(src, state, sample, ms),
{
    let name = match Device::from_u8(src) {
        Some(d) => d.label().to_string(),
        None => text::glue("src", text::decimal(src as u64).as_str()),
    };
    let head = text::glue3("  ", name.as_str(), "=");
    match state {
        SlotState::Absent => Notice::of(text::glue(head.as_str(), "absent")),
        SlotState::Stale => Notice::of(text::glue(head.as_str(), "STALE")),
        SlotState::NotTracking => Notice::of(text::glue(head.as_str(), "no-track")),
        SlotState::Live => match sample {
            Some(s) => {
                let p = s.packet.pose.p;
                let mut n = Notice::of(text::glue(head.as_str(), "("));
                n.signed(Figure::Single(p[0]), 2);
                n.say(",");
                n.signed(Figure::Single(p[1]), 2);
                n.say(",");
                n.signed(Figure::Single(p[2]), 2);
                n.say(") ");
                n.figure(Figure::Single(ms), 0);
                n.say("ms");
                n
            },
            None => Notice::of(head),
        },
    }
}

/// Giving every puck a stable id. Assigning one costs one restart of the tracker,
/// once per puck ever; a puck that has one keeps it, so this can be run again.
#[derive(Debug)]
pub struct Provisioning {
    pub roster: Vec<PuckCfg>,
    /// The addresses of the pucks that need one.
    pub need: Vec<String>,
    /// How many of these are done with.
    pub at: usize,
}

/// What that says.
#[verifier::ext_equal]
pub ghost struct ProvisionView {
    pub roster: Seq<PuckView>,
    pub need: Seq<Seq<char>>,
    pub at: nat,
}

impl View for Provisioning {
    type V = ProvisionView;

    open spec fn view(&self) -> ProvisionView {
        ProvisionView {
            roster: roster_view(self.roster@),
            need: texts(self.need@),
            at: self.at as nat,
        }
    }
}

/// The addresses of the pucks without an id, among the first `n`.
pub open spec fn without_id(pucks: Seq<PuckView>, n: nat) -> Seq<Seq<char>>
    decreases n,
{
    if n == 0 {
        Seq::empty()
    } else {
        let before = without_id(pucks, (n - 1) as nat);
        if pucks[n - 1].id is None {
            before.push(pucks[n - 1].ip)
        } else {
            before
        }
    }
}

/// The roster with the id of the first puck at `ip` set.
pub open spec fn with_id(pucks: Seq<PuckView>, ip: Seq<char>, id: u8) -> Seq<PuckView> {
    match roster_at(pucks, ip, 0) {
        Some(k) => pucks.update(k as int, PuckView { id: Some(id), ..pucks[k as int] }),
        None => pucks,
    }
}

/// How a line about one puck begins.
pub open spec fn item(ip: Seq<char>) -> Seq<char> {
    "  "@ + text::filled_behind(ip, 15) + " "@
}

fn item_line(ip: &str, what: &str) -> (r: String)
    ensures
        r@ == item(ip@) + what@,
{
    let mut s = text::glue3("  ", text::fill_behind(ip, 15).as_str(), " ");
    s.append(what);
    s
}

/// What comes next.
#[derive(Debug)]
pub enum ProvisionStep {
    /// Record that id for the puck at that address in the configuration file.
    Record(String, u8),
    /// There is no id left for the next puck: that line is to be printed.
    Say(String),
    /// Every puck that needed an id was seen to.
    Done,
}

impl Provisioning {
    /// Begin with a roster.
    pub fn start(pucks: &[PuckCfg]) -> (r: Provisioning)
        ensures
            r@.roster == roster_view(pucks@),
            r@.need == without_id(roster_view(pucks@), pucks@.len()),
            r@.at == 0,
    {
        let ghost all = roster_view(pucks@);
        let mut need: Vec<String> = Vec::new();
        let mut i: usize = 0;
        proof {
            assert(texts(need@) =~= Seq::<Seq<char>>::empty());
        }
        while i < pucks.len()
            invariant
                i <= pucks.len(),
                all == roster_view(pucks@),
                texts(need@) == without_id(all, i as nat),
            decreases pucks.len() - i,
        {
            if pucks[i].id.is_none() {
                let ghost before = texts(need@);
                need.push(pucks[i].ip.clone());
                proof {
                    assert(texts(need@) =~= before.push(all[i as int].ip));
                }
            }
            i = i + 1;
        }
        Provisioning { roster: crate::config::copy_roster(pucks), need, at: 0 }
    }

    /// What is printed first.
    pub fn heading(&self) -> (r: String)
        ensures
            r@ == (if self@.need.len() == 0 {
                "every puck already has a stable id\n"@
            } else {
                "assigning stable ids to "@ + text::decimal_of(self@.need.len())
                    + " puck(s) — one tracker restart each\n"@
            }),
    {
        if self.need.len() == 0 {
            "every puck already has a stable id\n".to_string()
        } else {
            text::glue3(
                "assigning stable ids to ",
                text::decimal(self.need.len() as u64).as_str(),
                " puck(s) — one tracker restart each\n",
            )
        }
    }

    /// What comes next: the lowest id that no puck has, for the next puck that
    /// needs one.
    pub fn next(&mut self) -> (r: ProvisionStep)
        requires
            old(self)@.at <= old(self)@.need.len(),
        ensures
            final(self)@.at <= final(self)@.need.len(),
            match r {
                ProvisionStep::Done => old(self)@.at == old(self)@.need.len() && final(self)@
                    == old(self)@,
                ProvisionStep::Record(ip, id) => old(self)@.at < old(self)@.need.len()
                    && final(self)@ == old(self)@ && ip@ == old(self)@.need[old(self)@.at as int] && FIRST_ID <= id
                    && !id_taken(old(self)@.roster, id) && forall|x: u8|
                    FIRST_ID <= x < id ==> id_taken(old(self)@.roster, x),
                ProvisionStep::Say(line) => old(self)@.at < old(self)@.need.len() && final(self)@
                    == (ProvisionView { at: old(self)@.at + 1, ..old(self)@ }) && line@ == item(
                    old(self)@.need[old(self)@.at as int],
                ) + "no free id left (all 100..255 are taken)"@ && forall|x: u8|
                    FIRST_ID <= x ==> id_taken(old(self)@.roster, x),
            },
    {
        if self.at >= self.need.len() {
            return ProvisionStep::Done;
        }
        match next_free_id(self.roster.as_slice()) {
            Some(id) => ProvisionStep::Record(self.need[self.at].clone(), id),
            None => {
                let line = item_line(
                    self.need[self.at].as_str(),
                    "no free id left (all 100..255 are taken)",
                );
                self.at = self.at + 1;
                ProvisionStep::Say(line)
            },
        }
    }

    /// An id could not be recorded: what is printed. The puck is passed over, and
    /// stays on its role, which works.
    pub fn not_recorded(&mut self, id: u8, why: &str) -> (r: String)
        requires
            old(self)@.at < old(self)@.need.len(),
        ensures
            final(self)@ == (ProvisionView { at: old(self)@.at + 1, ..old(self)@ }),
            r@ == item(old(self)@.need[old(self)@.at as int]) + ("could not record id "@
                + text::decimal_of(id as nat) + ": "@ + why@),
    {
        let mut s = text::glue3("could not record id ", text::decimal(id as u64).as_str(), ": ");
        s.append(why);
        let line = item_line(self.need[self.at].as_str(), s.as_str());
        let _len: usize = self.need.len();
        self.at = self.at + 1;
        line
    }

    /// A recorded id was handed to the puck, or was not: what is printed. Only a
    /// puck that took its id counts as having it.
    pub fn pushed(&mut self, id: u8, result: &Result<(), String>) -> (r: String)
        requires
            old(self)@.at < old(self)@.need.len(),
        ensures
            final(self)@.need == old(self)@.need,
            final(self)@.at == old(self)@.at + 1,
            ({
                let ip = old(self)@.need[old(self)@.at as int];
                match *result {
                    Ok(_) => final(self)@.roster == with_id(old(self)@.roster, ip, id) && r@
                        == item(ip) + ("id "@ + text::decimal_of(id as nat)
                        + " assigned; role is now host-side only"@),
                    Err(e) => final(self)@.roster == old(self)@.roster && r@ == item(ip) + ("id "@
                        + text::decimal_of(id as nat) + " recorded but the puck push failed: "@
                        + e@),
                }
            }),
    {
        let ghost before = self@.roster;
        let ip = self.need[self.at].clone();
        let _len: usize = self.need.len();
        self.at = self.at + 1;
        match result {
            Ok(_) => {
                if let Some(k) = find_puck(self.roster.as_slice(), ip.as_str()) {
                    self.roster[k].id = Some(id);
                    proof {
                        assert(self@.roster =~= with_id(before, ip@, id));
                    }
                }
                let s = text::glue3(
                    "id ",
                    text::decimal(id as u64).as_str(),
                    " assigned; role is now host-side only",
                );
                item_line(ip.as_str(), s.as_str())
            },
            Err(e) => {
                let mut s = text::glue3(
                    "id ",
                    text::decimal(id as u64).as_str(),
                    " recorded but the puck push failed: ",
                );
                s.append(e.as_str());
                item_line(ip.as_str(), s.as_str())
            },
        }
    }
}

/// How granting boot-start to one puck went, in a line, and whether it is ready.
pub fn granted_line(ip: &str, result: &Result<bool, String>) -> (r: (String, bool))
    ensures
        match *result {
            Ok(stuck) => r.1 == stuck && r.0@ == item(ip@) + (if stuck {
                "ready — will stream after every boot"@
            } else {
                "FAILED — appop or guardian prop did not stick"@
            }),
            Err(e) => !r.1 && r.0@ == item(ip@) + ("error: "@ + e@),
        },
{
    match result {
        Ok(stuck) => if *stuck {
            (item_line(ip, "ready — will stream after every boot"), true)
        } else {
            (item_line(ip, "FAILED — appop or guardian prop did not stick"), false)
        },
        Err(e) => (item_line(ip, text::glue("error: ", e.as_str()).as_str()), false),
    }
}

/// What is printed last.
pub fn provisioned(all: bool) -> (r: &'static str)
    ensures
        r@ == (if all {
            "\nDone. Power-cycle a puck to confirm: it should appear in the stream unaided."@
        } else {
            "\nSome pucks are not provisioned; they still need `insight-map-loader up` after a boot."@
        }),
{
    if all {
        "\nDone. Power-cycle a puck to confirm: it should appear in the stream unaided."
    } else {
        "\nSome pucks are not provisioned; they still need `insight-map-loader up` after a boot."
    }
}

/// No two pucks of the roster have one id.
pub open spec fn ids_distinct(pucks: Seq<PuckView>) -> bool {
    forall|i: int, k: int|
        0 <= i < k < pucks.len() && (#[trigger] pucks[i]).id is Some && (
        #[trigger] pucks[k]).id is Some ==> pucks[i].id != pucks[k].id
}

/// Handing out an id that no puck has keeps the ids distinct, and takes no id
/// away from a puck that has one and is not the one it is handed to.
pub proof fn ids_stay_distinct(pucks: Seq<PuckView>, ip: Seq<char>, id: u8)
    requires
        ids_distinct(pucks),
        !id_taken(pucks, id),
    ensures
        ids_distinct(with_id(pucks, ip, id)),
        with_id(pucks, ip, id).len() == pucks.len(),
        forall|i: int|
            0 <= i < pucks.len() && (#[trigger] pucks[i]).ip != ip ==> with_id(pucks, ip, id)[i]
                == pucks[i],
{
    crate::service::role::lemma_roster_at(pucks, ip, 0);
    let after = with_id(pucks, ip, id);
    assert forall|i: int, k: int|
        0 <= i < k < after.len() && (#[trigger] after[i]).id is Some && (
        #[trigger] after[k]).id is Some implies after[i].id != after[k].id by {
        assert(after[i] == pucks[i] || after[i].id == Some(id));
        assert(after[k] == pucks[k] || after[k].id == Some(id));
        assert(pucks[i].id != Some(id));
        assert(pucks[k].id != Some(id));
    }
}

/// Every puck without an id is seen to, once and in order, and no other is.
pub proof fn every_puck_without_an_id_is_seen_to(pucks: Seq<PuckView>, n: nat)
    requires
        n <= pucks.len(),
    ensures
        without_id(pucks, n) == pucks.take(n as int).filter(
            |p: PuckView| p.id is None,
        ).map_values(|p: PuckView| p.ip),
    decreases n,
{
    reveal(Seq::filter);
    let missing = |p: PuckView| p.id is None;
    let name = |p: PuckView| p.ip;
    if n > 0 {
        every_puck_without_an_id_is_seen_to(pucks, (n - 1) as nat);
        assert(pucks.take(n as int).drop_last() =~= pucks.take(n - 1));
        assert(pucks.take(n as int).last() == pucks[n - 1]);
        let before = pucks.take(n - 1).filter(missing);
        if pucks[n - 1].id is None {
            assert(before.push(pucks[n - 1]).map_values(name) =~= before.map_values(name).push(
                pucks[n - 1].ip,
            ));
        }
    } else {
        assert(pucks.take(0) =~= Seq::<PuckView>::empty());
        assert(Seq::<PuckView>::empty().map_values(name) =~= Seq::<Seq<char>>::empty());
    }
}

/// An id that is given changes the id of that puck and nothing else of any.
pub proof fn giving_an_id_changes_that_id(pucks: Seq<PuckView>, ip: Seq<char>, id: u8, i: int)
    requires
        0 <= i < pucks.len(),
        forall|a: int, b: int|
            0 <= a < b < pucks.len() ==> (#[trigger] pucks[a]).ip != (#[trigger] pucks[b]).ip,
    ensures
        ({
            let after = with_id(pucks, ip, id);
            &&& after.len() == pucks.len()
            &&& pucks[i].ip == ip ==> after[i] == (PuckView { id: Some(id), ..pucks[i] })
            &&& pucks[i].ip != ip ==> after[i] == pucks[i]
        }),
{
    crate::service::role::lemma_roster_first(pucks, ip, 0);
}

} // verus!
