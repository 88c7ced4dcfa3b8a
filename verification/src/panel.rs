//! What the control surface shows.
//!
//! The window paints the service's view and forwards button presses. What each
//! line says, which buttons can be pressed and what they start from is decided
//! here; where it is drawn is the window's business.

use crate::book::Book;
use crate::config::{roster_view, PuckCfg, PuckView};
use crate::fleet;
use crate::fleet::{PuckStatus, StatusView};
use crate::ieee::Single;
use crate::ingest::SlotState;
use crate::jobs::{JobState, JobStep, StepState, StepView};
use crate::monitor::texts;
use crate::mpt1::Device;
use crate::service::notice::{words, Figure, Notice, PieceView};
use crate::text;
use crate::watchdog::BridgeState;
use std::collections::{BTreeMap, VecDeque};
use vstd::prelude::*;

verus! {

broadcast use vstd::std_specs::btree::group_btree_axioms;

/// How a line is tinted.
#[derive(Debug, Clone, Copy, PartialEq, Eq, Structural)]
pub enum Tone {
    /// As it should be.
    Fine,
    /// Of no concern.
    Muted,
    /// Not reached, or passed over.
    Faint,
    /// Under way.
    Busy,
    /// To be looked at.
    Warn,
    /// Wrong.
    Bad,
    /// In the colour of the role.
    Role,
}

/// What was last asked of one puck.
#[derive(Debug)]
pub struct FleetRow {
    pub ip: String,
    pub device: u8,
    pub status: PuckStatus,
}

/// What a row says.
#[verifier::ext_equal]
pub ghost struct RowView {
    pub ip: Seq<char>,
    pub device: u8,
    pub status: StatusView,
}

impl View for FleetRow {
    type V = RowView;

    open spec fn view(&self) -> RowView {
        RowView { ip: self.ip@, device: self.device, status: self.status@ }
    }
}

/// What a list of rows says.
pub open spec fn row_views(s: Seq<FleetRow>) -> Seq<RowView> {
    s.map_values(|r: FleetRow| r@)
}

/// The puck is on a persistent map with a root.
pub open spec fn rooted(r: RowView) -> bool {
    r.status.map_persistent && r.status.map_root.len() > 0
}

/// How many of the first `n` rows are on the persistent map with that root.
pub open spec fn rooted_at(rows: Seq<RowView>, root: Seq<char>, n: nat) -> nat
    decreases n,
{
    if n == 0 {
        0
    } else {
        rooted_at(rows, root, (n - 1) as nat) + if rooted(rows[n - 1]) && rows[n
            - 1].status.map_root == root {
            1nat
        } else {
            0nat
        }
    }
}

/// `root` is the one that most rows are on; of several, the last in order.
pub open spec fn most_common(rows: Seq<RowView>, root: Seq<char>) -> bool {
    &&& rooted_at(rows, root, rows.len()) > 0
    &&& forall|i: int|
        0 <= i < rows.len() && rooted(#[trigger] rows[i]) ==> {
            let other = rows[i].status.map_root;
            let (a, b) = (
                rooted_at(rows, root, rows.len()),
                rooted_at(rows, other, rows.len()),
            );
            a > b || (a == b && (other == root || text::comes_after(root, other)))
        }
}

fn is_rooted(r: &FleetRow) -> (b: bool)
    ensures
        b == rooted(r@),
{
    r.status.map_persistent && r.status.map_root.as_str().unicode_len() > 0
}

fn count_root(rows: &Vec<FleetRow>, root: &str) -> (r: usize)
    ensures
        r == rooted_at(row_views(rows@), root@, rows@.len()),
{
    let ghost all = row_views(rows@);
    let mut n: usize = 0;
    let mut i: usize = 0;
    while i < rows.len()
        invariant
            i <= rows.len(),
            n <= i,
            all == row_views(rows@),
            n == rooted_at(all, root@, i as nat),
        decreases rows.len() - i,
    {
        if is_rooted(&rows[i]) && text::same(rows[i].status.map_root.as_str(), root) {
            n = n + 1;
        }
        i = i + 1;
    }
    n
}

proof fn lemma_rooted_at(rows: Seq<RowView>, root: Seq<char>, n: nat)
    requires
        n <= rows.len(),
    ensures
        rooted_at(rows, root, n) > 0 <==> exists|i: int|
            0 <= i < n && rooted(#[trigger] rows[i]) && rows[i].status.map_root == root,
    decreases n,
{
    if n > 0 {
        lemma_rooted_at(rows, root, (n - 1) as nat);
        if rooted(rows[n - 1]) && rows[n - 1].status.map_root == root {
            assert(rooted(rows[n - 1]));
        }
        if exists|i: int|
            0 <= i < n && rooted(#[trigger] rows[i]) && rows[i].status.map_root == root {
            let i = choose|i: int|
                0 <= i < n && rooted(#[trigger] rows[i]) && rows[i].status.map_root == root;
            if i < n - 1 {
                assert(rooted(rows[i]));
            }
        }
    }
}

/// The fleet's shared map: the most common persistent root. Colocation is exactly
/// that every puck reports this one.
pub fn shared_root(rows: &Vec<FleetRow>) -> (r: Option<String>)
    ensures
        match r {
            Some(root) => most_common(row_views(rows@), root@),
            None => forall|i: int|
                0 <= i < rows@.len() ==> !rooted(#[trigger] row_views(rows@)[i]),
        },
{
    let ghost all = row_views(rows@);
    let mut best: Option<usize> = None;
    let mut votes: usize = 0;
    let mut i: usize = 0;
    while i < rows.len()
        invariant
            i <= rows.len(),
            all == row_views(rows@),
            match best {
                Some(b) => {
                    &&& b < i
                    &&& rooted(all[b as int])
                    &&& votes == rooted_at(all, all[b as int].status.map_root, all.len())
                    &&& forall|k: int|
                        0 <= k < i && rooted(#[trigger] all[k]) ==> {
                            let other = all[k].status.map_root;
                            let n = rooted_at(all, other, all.len());
                            votes > n || (votes == n && (other == all[b as int].status.map_root
                                || text::comes_after(all[b as int].status.map_root, other)))
                        }
                },
                None => forall|k: int| 0 <= k < i ==> !rooted(#[trigger] all[k]),
            },
        decreases rows.len() - i,
    {
        if is_rooted(&rows[i]) {
            let root = rows[i].status.map_root.as_str();
            let n: usize = count_root(rows, root);
            proof {
                assert(all[i as int] == rows@[i as int]@);
            }
            let ahead = match best {
                Some(b) => n > votes || (n == votes && text::after(
                    root,
                    rows[b].status.map_root.as_str(),
                )),
                None => true,
            };
            if ahead {
                proof {
                    if let Some(b) = best {
                        let mine = all[i as int].status.map_root;
                        let was = all[b as int].status.map_root;
                        assert forall|k: int| 0 <= k < i && rooted(#[trigger] all[k]) implies {
                            let other = all[k].status.map_root;
                            let m = rooted_at(all, other, all.len());
                            n > m || (n == m && (other == mine || text::comes_after(mine, other)))
                        } by {
                            let other = all[k].status.map_root;
                            if n == votes && other != was && text::comes_after(was, other)
                                && text::comes_after(mine, was) {
                                text::lemma_order_chain(mine, was, other);
                            }
                        }
                    }
                }
                best = Some(i);
                votes = n;
            } else {
                proof {
                    let b = best->0;
                    text::lemma_order(
                        all[i as int].status.map_root,
                        all[b as int].status.map_root,
                    );
                    text::lemma_order(
                        all[b as int].status.map_root,
                        all[i as int].status.map_root,
                    );
                }
            }
        }
        i = i + 1;
    }
    match best {
        Some(b) => {
            proof {
                lemma_rooted_at(all, all[b as int].status.map_root, all.len());
            }
            Some(rows[b].status.map_root.clone())
        },
        None => None,
    }
}

/// How many of the first `n` rows are reachable.
pub open spec fn reachable_in(rows: Seq<RowView>, n: nat) -> nat
    decreases n,
{
    if n == 0 {
        0
    } else {
        reachable_in(rows, (n - 1) as nat) + if rows[n - 1].status.reachable {
            1nat
        } else {
            0nat
        }
    }
}

/// How many of the first `n` rows are on the persistent map with that root, as it
/// is reported.
pub open spec fn sharing_in(rows: Seq<RowView>, root: Seq<char>, n: nat) -> nat
    decreases n,
{
    if n == 0 {
        0
    } else {
        sharing_in(rows, root, (n - 1) as nat) + if rows[n - 1].status.map_persistent && rows[n
            - 1].status.map_root == root {
            1nat
        } else {
            0nat
        }
    }
}

/// What the fleet's agreement is reported as.
pub open spec fn banner_of(rows: Seq<RowView>, shared: Option<Seq<char>>) -> (Seq<char>, Tone) {
    let reachable = reachable_in(rows, rows.len());
    match shared {
        Some(root) => {
            let n = sharing_in(rows, root, rows.len());
            if n == reachable && reachable > 1 {
                (
                    "Colocated: all "@ + text::decimal_of(reachable) + " pucks on shared map "@
                        + text::shortened(root, 8) + " — no transforms applied"@,
                    Tone::Fine,
                )
            } else {
                (
                    "Colocated mode: "@ + text::decimal_of(n) + "/"@ + text::decimal_of(reachable)
                        + " pucks on map "@ + text::shortened(root, 8)
                        + " — the rest are NOT aligned"@,
                    Tone::Bad,
                )
            }
        },
        None => (
            "Colocated mode: no puck has a persistent map — transplant one (docs/insight-mapdata-format.md)"@,
            Tone::Warn,
        ),
    }
}

/// What a text that may be missing says.
pub open spec fn maybe(s: Option<&str>) -> Option<Seq<char>> {
    match s {
        Some(x) => Some(x@),
        None => None,
    }
}

/// The fleet's agreement, in a line.
pub fn banner(rows: &Vec<FleetRow>, shared: Option<&str>) -> (r: (String, Tone))
    ensures
        (r.0@, r.1) == banner_of(row_views(rows@), maybe(shared)),
{
    let ghost all = row_views(rows@);
    let root = match shared {
        Some(s) => s,
        None => {
            return (
                "Colocated mode: no puck has a persistent map — transplant one (docs/insight-mapdata-format.md)".to_string(),
                Tone::Warn,
            );
        },
    };
    let mut n: usize = 0;
    let mut reachable: usize = 0;
    let mut i: usize = 0;
    while i < rows.len()
        invariant
            i <= rows.len(),
            n <= i,
            reachable <= i,
            all == row_views(rows@),
            n == sharing_in(all, root@, i as nat),
            reachable == reachable_in(all, i as nat),
        decreases rows.len() - i,
    {
        if rows[i].status.map_persistent && text::same(rows[i].status.map_root.as_str(), root) {
            n = n + 1;
        }
        if rows[i].status.reachable {
            reachable = reachable + 1;
        }
        i = i + 1;
    }
    let short = text::shorten(root, 8);
    if n == reachable && reachable > 1 {
        (
            text::glue5(
                "Colocated: all ",
                text::decimal(reachable as u64).as_str(),
                " pucks on shared map ",
                short.as_str(),
                " — no transforms applied",
            ),
            Tone::Fine,
        )
    } else {
        let mut s = text::glue5(
            "Colocated mode: ",
            text::decimal(n as u64).as_str(),
            "/",
            text::decimal(reachable as u64).as_str(),
            " pucks on map ",
        );
        s.append(short.as_str());
        s.append(" — the rest are NOT aligned");
        (s, Tone::Bad)
    }
}

/// The role of each puck of a roster; of two at one address the later counts.
pub open spec fn role_book(pucks: Seq<PuckView>) -> Map<Seq<char>, u8>
    decreases pucks.len(),
{
    if pucks.len() == 0 {
        Map::empty()
    } else {
        role_book(pucks.drop_last()).insert(pucks.last().ip, pucks.last().device)
    }
}

/// The role of each puck of the live roster. A row keeps the role it was asked
/// with, which a role picked since would contradict.
pub fn live_roles(pucks: &[PuckCfg]) -> (r: Book<u8>)
    ensures
        r.wf(),
        r@ == role_book(roster_view(pucks@)),
{
    let ghost all = roster_view(pucks@);
    let mut out: Book<u8> = Book::new();
    let mut i: usize = 0;
    proof {
        assert(all.take(0) =~= Seq::<PuckView>::empty());
    }
    while i < pucks.len()
        invariant
            i <= pucks.len(),
            out.wf(),
            all == roster_view(pucks@),
            out@ == role_book(all.take(i as int)),
        decreases pucks.len() - i,
    {
        proof {
            assert(all.take(i + 1).drop_last() =~= all.take(i as int));
            assert(all.take(i + 1).last() == pucks@[i as int]@);
        }
        out.insert(pucks[i].ip.as_str(), pucks[i].device);
        i = i + 1;
    }
    proof {
        assert(all.take(all.len() as int) =~= all);
    }
    out
}

/// The role of a row: the live one, else the one it was asked with.
pub fn role_of(row: &FleetRow, roles: &Book<u8>) -> (r: u8)
    requires
        roles.wf(),
    ensures
        r == (if roles@.contains_key(row@.ip) {
            roles@[row@.ip]
        } else {
            row@.device
        }),
{
    match roles.get(row.ip.as_str()) {
        Some(d) => *d,
        None => row.device,
    }
}

/// Another puck has the role.
pub open spec fn taken_by_another(roles: Map<Seq<char>, u8>, ip: Seq<char>, id: u8) -> bool {
    exists|other: Seq<char>| #[trigger]
        roles.contains_key(other) && other != ip && roles[other] == id
}

/// Whether another puck has the role: a duplicate would make two pucks fight over
/// one tracker, so it cannot be picked.
pub fn taken(roles: &Book<u8>, ip: &str, id: u8) -> (r: bool)
    requires
        roles.wf(),
    ensures
        r == taken_by_another(roles@, ip@, id),
{
    proof {
        crate::book::lemma_filed(roles.entries@);
    }
    let mut i: usize = 0;
    while i < roles.entries.len()
        invariant
            i <= roles.entries.len(),
            roles.wf(),
            forall|k: int|
                0 <= k < i ==> (#[trigger] roles.entries@[k]).0@ == ip@ || roles.entries@[k].1
                    != id,
        decreases roles.entries.len() - i,
    {
        if roles.entries[i].1 == id && !text::same(roles.entries[i].0.as_str(), ip) {
            proof {
                crate::book::lemma_filed(roles.entries@);
                assert(roles@.contains_key(roles.entries@[i as int].0@));
            }
            return true;
        }
        i = i + 1;
    }
    proof {
        if taken_by_another(roles@, ip@, id) {
            let other = choose|other: Seq<char>| #[trigger]
                roles@.contains_key(other) && other != ip@ && roles@[other] == id;
            let k = choose|k: int|
                0 <= k < roles.entries@.len() && (#[trigger] roles.entries@[k]).0@ == other;
            assert(roles@[roles.entries@[k].0@] == roles.entries@[k].1);
        }
    }
    false
}

/// How a role reads in the list to pick from.
pub fn role_choice(d: Device, dup: bool) -> (r: String)
    ensures
        r@ == (if dup {
            d.title() + " (taken)"@
        } else {
            d.title()
        }),
{
    if dup {
        text::glue(d.pretty(), " (taken)")
    } else {
        d.pretty().to_string()
    }
}

/// How the role of a puck reads.
pub fn role_title(id: u8) -> (r: &'static str)
    ensures
        r@ == (match Device::coded(id) {
            Some(d) => d.title(),
            None => "?"@,
        }),
{
    match Device::from_u8(id) {
        Some(d) => d.pretty(),
        None => "?",
    }
}

/// How a puck with a known role is headed.
pub fn row_title(ip: &str, d: Device) -> (r: String)
    ensures
        r@ == ip@ + "  ("@ + d.name() + ")"@,
{
    let mut s = text::glue3(ip, "  (", d.label());
    s.append(")");
    s
}

/// What the button that identifies a puck says.
pub fn identify_hint(id: u8) -> (r: String)
    ensures
        r@ == "identify: flashes "@ + fleet::led(id).3 + ", "@ + text::decimal_of(
            (id as nat + 1) as nat,
        ) + " time(s)"@,
{
    let (_, _, _, name) = fleet::slot_led_rgb(id);
    text::glue5(
        "identify: flashes ",
        name,
        ", ",
        text::decimal(id as u64 + 1).as_str(),
        " time(s)",
    )
}

/// A slot with that role is live.
pub open spec fn streams(slots: Seq<(Device, SlotState)>, role: Option<Device>) -> bool {
    role is Some && exists|i: int|
        0 <= i < slots.len() && (#[trigger] slots[i]).0 == role->0 && slots[i].1 is Live
}

/// How a puck that adb does not reach is doing: adb being down is not the puck
/// being gone, the stream is what counts.
pub fn offline_line(slots: &Vec<(Device, SlotState)>, id: u8) -> (r: (&'static str, Tone))
    ensures
        (r.0@, r.1) == (if streams(slots@, Device::coded(id)) {
            ("streaming · adb offline (reconnecting…)"@, Tone::Warn)
        } else {
            ("unreachable"@, Tone::Bad)
        }),
{
    if let Some(d) = Device::from_u8(id) {
        let mut i: usize = 0;
        while i < slots.len()
            invariant
                i <= slots.len(),
                Device::coded(id) == Some(d),
                forall|k: int| 0 <= k < i ==> !((#[trigger] slots@[k]).0 == d && slots@[k].1 is Live),
            decreases slots.len() - i,
        {
            let (sd, st) = slots[i];
            if sd == d && st == SlotState::Live {
                proof {
                    assert(slots@[i as int].0 == d);
                }
                return ("streaming · adb offline (reconnecting…)", Tone::Warn);
            }
            i = i + 1;
        }
    }
    ("unreachable", Tone::Bad)
}

/// How a reachable puck tracks.
pub fn tracking_line(s: &PuckStatus) -> (r: String)
    ensures
        r@ == s@.tracking + (if s@.tracking_valid {
            ""@
        } else {
            " INVALID"@
        }) + "   battery "@ + text::signed_decimal_of(s@.battery_pct as int) + "%"@,
{
    let valid = if s.tracking_valid {
        ""
    } else {
        " INVALID"
    };
    text::glue5(
        s.tracking.as_str(),
        valid,
        "   battery ",
        text::signed_decimal(s.battery_pct as i64).as_str(),
        "%",
    )
}

/// Whether the tracker app of a puck runs, in words.
pub fn tracker_line(s: &PuckStatus) -> (r: &'static str)
    ensures
        r@ == (if s@.tracker_running {
            "tracker up"@
        } else {
            "tracker DOWN"@
        }),
{
    if s.tracker_running {
        "tracker up"
    } else {
        "tracker DOWN"
    }
}

/// What a puck's map is reported as, given the fleet's. Full roots are compared,
/// short ones shown.
pub open spec fn map_line_of(st: StatusView, shared: Option<Seq<char>>) -> (Seq<char>, Tone) {
    let shown = text::shortened(st.map_root, 8);
    if st.map_root.len() == 0 {
        ("map: no context yet"@, Tone::Warn)
    } else if !st.map_persistent {
        ("map "@ + shown + " TRANSIENT — not colocated"@, Tone::Bad)
    } else if shared == Some(st.map_root) {
        ("colocated — shared map "@ + shown, Tone::Fine)
    } else {
        ("map "@ + shown + " — DIFFERENT map from the fleet"@, Tone::Bad)
    }
}

/// A puck's map, in a line.
pub fn map_line(s: &PuckStatus, shared: Option<&str>) -> (r: (String, Tone))
    ensures
        (r.0@, r.1) == map_line_of(s@, maybe(shared)),
{
    let root = s.map_root.as_str();
    let shown = text::shorten(root, 8);
    let agrees = match shared {
        Some(x) => text::same(x, root),
        None => false,
    };
    if root.unicode_len() == 0 {
        ("map: no context yet".to_string(), Tone::Warn)
    } else if !s.map_persistent {
        (text::glue3("map ", shown.as_str(), " TRANSIENT — not colocated"), Tone::Bad)
    } else if agrees {
        (text::glue("colocated — shared map ", shown.as_str()), Tone::Fine)
    } else {
        (text::glue3("map ", shown.as_str(), " — DIFFERENT map from the fleet"), Tone::Bad)
    }
}

/// What can be done about a puck without a persistent map.
#[derive(Debug, Clone, Copy, PartialEq, Eq, Structural)]
pub enum CreateOffer {
    /// It has one: nothing is offered.
    Nothing,
    /// It is worn and tracks: a map can be created, unless a job runs.
    Offer(bool),
    /// It has to be worn first.
    WearFirst,
}

/// Whether creating a map is offered.
pub fn create_offer(s: &PuckStatus, job_active: bool) -> (r: CreateOffer)
    ensures
        r == (if s@.map_persistent {
            CreateOffer::Nothing
        } else if s@.tracks() {
            CreateOffer::Offer(!job_active)
        } else {
            CreateOffer::WearFirst
        }),
{
    if s.map_persistent {
        CreateOffer::Nothing
    } else if s.tracks() {
        CreateOffer::Offer(!job_active)
    } else {
        CreateOffer::WearFirst
    }
}

/// What a bridge is reported as.
pub open spec fn bridge_line_of(st: BridgeState, yaw: Single) -> (Seq<PieceView>, Tone) {
    match st {
        BridgeState::Good => (
            seq![
                PieceView::Words("bridge ok ("@),
                PieceView::Signed(Figure::Single(yaw), 1),
                PieceView::Words("°)"@),
            ],
            Tone::Muted,
        ),
        BridgeState::Missing => (words("bridge: waiting for stillness"@), Tone::Warn),
        BridgeState::WaitingStill => (words("re-bridge pending stillness"@), Tone::Warn),
        BridgeState::Solving => (words("bridging…"@), Tone::Busy),
        BridgeState::Suspect => (words("bridge STALE"@), Tone::Bad),
    }
}

/// The watchdog's verdict on a puck's bridge, in a line.
pub fn bridge_line(st: BridgeState, yaw: Single) -> (r: (Notice, Tone))
    ensures
        (r.0@, r.1) == bridge_line_of(st, yaw),
{
    match st {
        BridgeState::Good => {
            let mut n = Notice::of("bridge ok (".to_string());
            n.signed(Figure::Single(yaw), 1);
            n.say("°)");
            proof {
                assert(n@ =~= bridge_line_of(st, yaw).0);
            }
            (n, Tone::Muted)
        },
        BridgeState::Missing => (
            Notice::of("bridge: waiting for stillness".to_string()),
            Tone::Warn,
        ),
        BridgeState::WaitingStill => (
            Notice::of("re-bridge pending stillness".to_string()),
            Tone::Warn,
        ),
        BridgeState::Solving => (Notice::of("bridging…".to_string()), Tone::Busy),
        BridgeState::Suspect => (Notice::of("bridge STALE".to_string()), Tone::Bad),
    }
}

/// A puck whose map can be copied.
pub open spec fn is_source(r: RowView) -> bool {
    r.status.reachable && rooted(r)
}

/// The first row, from `from` on, that is a source with that root.
pub open spec fn source_with(rows: Seq<RowView>, root: Seq<char>, from: nat) -> Option<nat>
    decreases rows.len() - from,
{
    if from >= rows.len() {
        None
    } else if is_source(rows[from as int]) && rows[from as int].status.map_root == root {
        Some(from)
    } else {
        source_with(rows, root, from + 1)
    }
}

/// The first row, from `from` on, that is a source.
pub open spec fn first_source(rows: Seq<RowView>, from: nat) -> Option<nat>
    decreases rows.len() - from,
{
    if from >= rows.len() {
        None
    } else if is_source(rows[from as int]) {
        Some(from)
    } else {
        first_source(rows, from + 1)
    }
}

/// A source has that address.
pub open spec fn source_named(rows: Seq<RowView>, ip: Seq<char>) -> bool {
    exists|i: int| 0 <= i < rows.len() && is_source(#[trigger] rows[i]) && rows[i].ip == ip
}

/// The puck whose map is copied: the one chosen as long as it is a source, else
/// one that is on the fleet's map, else the first.
pub open spec fn source_of(
    rows: Seq<RowView>,
    chosen: Option<Seq<char>>,
    shared: Option<Seq<char>>,
) -> Option<Seq<char>> {
    if chosen is Some && source_named(rows, chosen->0) {
        chosen
    } else {
        let agreed = match shared {
            Some(root) => source_with(rows, root, 0),
            None => None,
        };
        let at = match agreed {
            Some(i) => Some(i),
            None => first_source(rows, 0),
        };
        match at {
            Some(i) => Some(rows[i as int].ip),
            None => None,
        }
    }
}

/// The rows whose map can be copied, in order.
pub fn sources(rows: &Vec<FleetRow>) -> (r: Vec<usize>)
    ensures
        forall|k: int| 0 <= k < r@.len() ==> (#[trigger] r@[k]) < rows@.len() && is_source(
            row_views(rows@)[r@[k] as int],
        ),
        forall|k: int, m: int| 0 <= k < m < r@.len() ==> (#[trigger] r@[k]) < (#[trigger] r@[m]),
        forall|i: int|
            0 <= i < rows@.len() && is_source(#[trigger] row_views(rows@)[i]) ==> r@.contains(
                i as usize,
            ),
{
    let ghost all = row_views(rows@);
    let mut out: Vec<usize> = Vec::new();
    let mut i: usize = 0;
    while i < rows.len()
        invariant
            i <= rows.len(),
            all == row_views(rows@),
            forall|k: int| 0 <= k < out@.len() ==> (#[trigger] out@[k]) < i && is_source(
                all[out@[k] as int],
            ),
            forall|k: int, m: int|
                0 <= k < m < out@.len() ==> (#[trigger] out@[k]) < (#[trigger] out@[m]),
            forall|k: int|
                0 <= k < i && is_source(#[trigger] all[k]) ==> out@.contains(k as usize),
        decreases rows.len() - i,
    {
        let ghost before = out@;
        if rows[i].status.reachable && is_rooted(&rows[i]) {
            out.push(i);
            proof {
                assert(out@[before.len() as int] == i);
                assert forall|k: int| 0 <= k < i && is_source(#[trigger] all[k]) implies out@.contains(
                    k as usize,
                ) by {
                    let m = choose|m: int| 0 <= m < before.len() && before[m] == k as usize;
                    assert(out@[m] == k as usize);
                }
            }
        }
        i = i + 1;
    }
    out
}

/// The puck whose map is copied.
pub fn map_source(rows: &Vec<FleetRow>, chosen: Option<&str>, shared: Option<&str>) -> (r: Option<
    String,
>)
    ensures
        match r {
            Some(ip) => source_of(row_views(rows@), maybe(chosen), maybe(shared)) == Some(ip@),
            None => source_of(row_views(rows@), maybe(chosen), maybe(shared)) is None,
        },
{
    let ghost all = row_views(rows@);
    if let Some(c) = chosen {
        let mut i: usize = 0;
        while i < rows.len()
            invariant
                i <= rows.len(),
                all == row_views(rows@),
                forall|k: int| 0 <= k < i ==> !(is_source(#[trigger] all[k]) && all[k].ip == c@),
                chosen == Some(c),
            decreases rows.len() - i,
        {
            if rows[i].status.reachable && is_rooted(&rows[i]) && text::same(
                rows[i].ip.as_str(),
                c,
            ) {
                proof {
                    assert(is_source(all[i as int]));
                    assert(source_named(all, c@));
                }
                return Some(c.to_string());
            }
            i = i + 1;
        }
    }
    proof {
        assert(!(maybe(chosen) is Some && source_named(all, maybe(chosen)->0)));
    }
    if let Some(root) = shared {
        let mut i: usize = 0;
        while i < rows.len()
            invariant
                i <= rows.len(),
                all == row_views(rows@),
                !(maybe(chosen) is Some && source_named(all, maybe(chosen)->0)),
                maybe(shared) == Some(root@),
                source_with(all, root@, 0) == source_with(all, root@, i as nat),
            decreases rows.len() - i,
        {
            if rows[i].status.reachable && is_rooted(&rows[i]) && text::same(
                rows[i].status.map_root.as_str(),
                root,
            ) {
                return Some(rows[i].ip.clone());
            }
            i = i + 1;
        }
    }
    let mut i: usize = 0;
    while i < rows.len()
        invariant
            i <= rows.len(),
            all == row_views(rows@),
            !(maybe(chosen) is Some && source_named(all, maybe(chosen)->0)),
            maybe(shared) matches Some(root) ==> source_with(all, root, 0) is None,
            first_source(all, 0) == first_source(all, i as nat),
        decreases rows.len() - i,
    {
        if rows[i].status.reachable && is_rooted(&rows[i]) {
            return Some(rows[i].ip.clone());
        }
        i = i + 1;
    }
    None
}

/// The addresses of the first `n` rows but the one at `ip`.
pub open spec fn others(rows: Seq<RowView>, ip: Seq<char>, n: nat) -> Seq<Seq<char>>
    decreases n,
{
    if n == 0 {
        Seq::empty()
    } else {
        let before = others(rows, ip, (n - 1) as nat);
        if rows[n - 1].ip != ip {
            before.push(rows[n - 1].ip)
        } else {
            before
        }
    }
}

/// The pucks that the map of the puck at `ip` is copied to: all others.
pub fn targets(rows: &Vec<FleetRow>, ip: &str) -> (r: Vec<String>)
    ensures
        texts(r@) == others(row_views(rows@), ip@, rows@.len()),
{
    let ghost all = row_views(rows@);
    let mut out: Vec<String> = Vec::new();
    let mut i: usize = 0;
    proof {
        assert(texts(out@) =~= Seq::<Seq<char>>::empty());
    }
    while i < rows.len()
        invariant
            i <= rows.len(),
            all == row_views(rows@),
            texts(out@) == others(all, ip@, i as nat),
        decreases rows.len() - i,
    {
        if !text::same(rows[i].ip.as_str(), ip) {
            let ghost before = texts(out@);
            out.push(rows[i].ip.clone());
            proof {
                assert(texts(out@) =~= before.push(all[i as int].ip));
            }
        }
        i = i + 1;
    }
    out
}

/// What the button that shares a map says.
pub fn share_label(n: usize) -> (r: String)
    ensures
        r@ == "⇄ Share map to "@ + text::decimal_of(n as nat) + " puck(s)"@,
{
    text::glue3("⇄ Share map to ", text::decimal(n as u64).as_str(), " puck(s)")
}

/// What a job's state is marked with.
pub fn job_mark(state: JobState) -> (r: (&'static str, Tone))
    ensures
        (r.0@, r.1) == (match state {
            JobState::Done => ("✔"@, Tone::Fine),
            JobState::Failed => ("✖"@, Tone::Bad),
            JobState::Cancelled => ("–"@, Tone::Muted),
            _ => ("…"@, Tone::Busy),
        }),
{
    match state {
        JobState::Done => ("✔", Tone::Fine),
        JobState::Failed => ("✖", Tone::Bad),
        JobState::Cancelled => ("–", Tone::Muted),
        _ => ("…", Tone::Busy),
    }
}

/// What a step's state is marked with.
pub open spec fn step_mark(state: StepState) -> (Seq<char>, Tone) {
    match state {
        StepState::Done => ("✔"@, Tone::Muted),
        StepState::Failed => ("✖"@, Tone::Bad),
        StepState::Running => ("…"@, Tone::Busy),
        StepState::Skipped => ("–"@, Tone::Faint),
        StepState::Pending => ("·"@, Tone::Faint),
    }
}

/// What a step is reported as.
pub open spec fn step_line_of(s: StepView) -> Seq<char> {
    step_mark(s.state).0 + " "@ + s.name + (if s.detail.len() == 0 {
        ""@
    } else {
        "  — "@ + s.detail
    })
}

/// A step, in a line.
pub fn step_line(s: &JobStep) -> (r: (String, Tone))
    ensures
        r.0@ == step_line_of(s@),
        r.1 == step_mark(s@.state).1,
{
    let (mark, tone) = match s.state {
        StepState::Done => ("✔", Tone::Muted),
        StepState::Failed => ("✖", Tone::Bad),
        StepState::Running => ("…", Tone::Busy),
        StepState::Skipped => ("–", Tone::Faint),
        StepState::Pending => ("·", Tone::Faint),
    };
    let detail = if s.detail.as_str().unicode_len() == 0 {
        "".to_string()
    } else {
        text::glue("  — ", s.detail.as_str())
    };
    let mut line = text::glue3(mark, " ", s.name.as_str());
    line.append(detail.as_str());
    (line, tone)
}

/// What a slot is reported as. The age is in milliseconds.
pub open spec fn slot_line_of(d: Device, st: SlotState, ms: Single, rate: Single) -> Option<
    (Seq<PieceView>, Tone),
> {
    match st {
        SlotState::Live => Some(
            (
                seq![
                    PieceView::Words(d.name() + " "@),
                    PieceView::Plain(Figure::Single(rate), 0),
                    PieceView::Words(" Hz "@),
                    PieceView::Plain(Figure::Single(ms), 0),
                    PieceView::Words(" ms"@),
                ],
                Tone::Role,
            ),
        ),
        SlotState::NotTracking => Some((words(d.name() + " NO-TRACK"@), Tone::Warn)),
        SlotState::Stale => Some((words(d.name() + " STALE"@), Tone::Bad)),
        SlotState::Absent => None,
    }
}

/// A slot, in a line; one that nothing was heard from is not shown.
pub fn slot_line(d: Device, st: SlotState, ms: Single, rate: Single) -> (r: Option<(Notice, Tone)>)
    ensures
        match r {
            Some((n, tone)) => slot_line_of(d, st, ms, rate) == Some((n@, tone)),
            None => slot_line_of(d, st, ms, rate) is None,
        },
{
    match st {
        SlotState::Live => {
            let mut n = Notice::of(text::glue(d.label(), " "));
            n.figure(Figure::Single(rate), 0);
            n.say(" Hz ");
            n.figure(Figure::Single(ms), 0);
            n.say(" ms");
            proof {
                let shown = slot_line_of(d, st, ms, rate)->0;
                assert(n@ =~= shown.0);
            }
            Some((n, Tone::Role))
        },
        SlotState::NotTracking => Some(
            (Notice::of(text::glue(d.label(), " NO-TRACK")), Tone::Warn),
        ),
        SlotState::Stale => Some((Notice::of(text::glue(d.label(), " STALE")), Tone::Bad)),
        SlotState::Absent => None,
    }
}

/// What is said of the sources that no roster entry claims, where there are any:
/// silence would send someone hunting a network fault that is not there.
pub fn unclaimed_line(unknown: &Vec<u8>) -> (r: Option<String>)
    ensures
        match r {
            Some(s) => unknown@.len() > 0 && s@ == "⚠ unclaimed puck id(s) "@ + text::listed(
                unknown@,
            ) + " — add to insight-map-loader.json"@,
            None => unknown@.len() == 0,
        },
{
    if unknown.len() == 0 {
        None
    } else {
        Some(
            text::glue3(
                "⚠ unclaimed puck id(s) ",
                text::list(unknown).as_str(),
                " — add to insight-map-loader.json",
            ),
        )
    }
}

/// What was emitted, and where to.
pub fn emitted_line(emitted: u64, out: &str) -> (r: String)
    ensures
        r@ == "out "@ + text::decimal_of(emitted as nat) + " pkts → "@ + out@,
{
    let mut s = text::glue3("out ", text::decimal(emitted).as_str(), " pkts → ");
    s.append(out);
    s
}

/// How many points of a trail are kept.
pub const TRAIL: usize = 900;

/// A square millimetre, in square metres: less than this is no movement.
pub const MOVED: u32 = 0x3586_37BD;

/// Where the pucks were, for the plot.
pub struct Trails {
    pub trails: BTreeMap<u8, VecDeque<[Single; 3]>>,
}

/// A trail with one more point, where the puck moved. `off` is the squared
/// distance on the floor from the newest point.
pub open spec fn extended(t: Seq<[Single; 3]>, p: [Single; 3], off: Single) -> Seq<[Single; 3]> {
    if t.len() == 0 || off.exceeds(MOVED) {
        if t.len() + 1 > TRAIL {
            t.push(p).drop_first()
        } else {
            t.push(p)
        }
    } else {
        t
    }
}

/// What the trails hold.
pub open spec fn trail_views(m: Map<u8, VecDeque<[Single; 3]>>) -> Map<u8, Seq<[Single; 3]>> {
    m.map_values(|v: VecDeque<[Single; 3]>| v@)
}

/// A trail, empty where there is none.
pub open spec fn trail_of(m: Map<u8, Seq<[Single; 3]>>, d: u8) -> Seq<[Single; 3]> {
    if m.contains_key(d) {
        m[d]
    } else {
        Seq::empty()
    }
}

impl Trails {
    /// No trails yet.
    pub fn new() -> (r: Trails)
        ensures
            trail_views(r.trails@) == Map::<u8, Seq<[Single; 3]>>::empty(),
    {
        let t = Trails { trails: BTreeMap::new() };
        proof {
            assert(trail_views(t.trails@) =~= Map::<u8, Seq<[Single; 3]>>::empty());
        }
        t
    }

    /// The newest point of a trail.
    pub fn newest(&self, d: u8) -> (r: Option<[Single; 3]>)
        ensures
            r == (if trail_of(trail_views(self.trails@), d).len() > 0 {
                Some(trail_of(trail_views(self.trails@), d).last())
            } else {
                None
            }),
    {
        match self.trails.get(&d) {
            Some(t) => if t.len() > 0 {
                Some(t[t.len() - 1])
            } else {
                None
            },
            None => None,
        }
    }

    /// Whether a puck at a place so far from its newest point moved. A puck
    /// without a trail did.
    pub fn moved(&self, d: u8, off: Single) -> (r: bool)
        ensures
            r == (trail_of(trail_views(self.trails@), d).len() == 0 || off.exceeds(MOVED)),
    {
        self.newest(d).is_none() || off.above(MOVED)
    }

    /// Take a puck's place in, where it moved.
    pub fn extend(&mut self, d: u8, p: [Single; 3], off: Single)
        ensures
            trail_views(final(self).trails@) == trail_views(old(self).trails@).insert(
                d,
                extended(trail_of(trail_views(old(self).trails@), d), p, off),
            ),
    {
        let ghost before = self.trails@;
        let mut t: VecDeque<[Single; 3]> = match self.trails.remove(&d) {
            Some(t) => t,
            None => VecDeque::new(),
        };
        let ghost was = t@;
        proof {
            assert(was =~= trail_of(trail_views(before), d));
        }
        if t.len() == 0 || off.above(MOVED) {
            t.push_back(p);
            if t.len() > TRAIL {
                let _old = t.pop_front();
                proof {
                    assert(t@ =~= was.push(p).drop_first());
                }
            }
        }
        self.trails.insert(d, t);
        proof {
            assert(trail_views(self.trails@) =~= trail_views(before).insert(
                d,
                extended(was, p, off),
            ));
        }
    }

    /// The points of a trail, oldest first.
    pub fn points(&self, d: u8) -> (r: Vec<[Single; 3]>)
        ensures
            r@ == trail_of(trail_views(self.trails@), d),
    {
        let mut out: Vec<[Single; 3]> = Vec::new();
        let ghost w = trail_of(trail_views(self.trails@), d);
        if let Some(t) = self.trails.get(&d) {
            let mut i: usize = 0;
            while i < t.len()
                invariant
                    i <= t@.len(),
                    w == t@,
                    out@ =~= w.take(i as int),
                decreases t@.len() - i,
            {
                out.push(t[i]);
                i = i + 1;
            }
        }
        proof {
            assert(w.take(w.len() as int) =~= w);
        }
        out
    }
}

/// In how many milliseconds the window is painted again: often only while a puck
/// moves, since every repaint costs.
pub fn repaint_after(moving: bool) -> (r: u64)
    ensures
        r == (if moving {
            33u64
        } else {
            100u64
        }),
{
    if moving {
        33
    } else {
        100
    }
}

/// A trail never grows beyond its bound, and its newest point is the last place
/// where the puck moved to.
pub proof fn trails_stay_bounded(t: Seq<[Single; 3]>, p: [Single; 3], off: Single)
    requires
        t.len() <= TRAIL,
    ensures
        extended(t, p, off).len() <= TRAIL,
        extended(t, p, off).len() > 0,
        t.len() == 0 || off.exceeds(MOVED) ==> extended(t, p, off).last() == p,
{
}

/// The fleet is reported as colocated only where every reachable puck is on one
/// persistent map and there are at least two.
pub proof fn fine_means_colocated(rows: Seq<RowView>, shared: Option<Seq<char>>)
    ensures
        banner_of(rows, shared).1 is Fine <==> shared is Some && reachable_in(rows, rows.len()) > 1
            && sharing_in(rows, shared->0, rows.len()) == reachable_in(rows, rows.len()),
{
}

/// A map is copied to every puck but the one it comes from, in the order of the rows.
pub proof fn a_map_goes_to_every_other_puck(rows: Seq<RowView>, ip: Seq<char>, n: nat)
    requires
        n <= rows.len(),
    ensures
        others(rows, ip, n) == rows.take(n as int).map_values(|r: RowView| r.ip).filter(
            |x: Seq<char>| x != ip,
        ),
        !others(rows, ip, n).contains(ip),
        forall|i: int|
            0 <= i < n && (#[trigger] rows[i]).ip != ip ==> others(rows, ip, n).contains(
                rows[i].ip,
            ),
    decreases n,
{
    reveal(Seq::filter);
    let now = others(rows, ip, n);
    let names = rows.take(n as int).map_values(|r: RowView| r.ip);
    if n > 0 {
        a_map_goes_to_every_other_puck(rows, ip, (n - 1) as nat);
        let before = others(rows, ip, (n - 1) as nat);
        assert(names.drop_last() =~= rows.take(n - 1).map_values(|r: RowView| r.ip));
        assert(names.last() == rows[n - 1].ip);
        if now.contains(ip) {
            let k = choose|k: int| 0 <= k < now.len() && now[k] == ip;
            if k < before.len() {
                assert(before[k] == ip);
                assert(before.contains(ip));
            }
        }
        assert forall|i: int| 0 <= i < n && (#[trigger] rows[i]).ip != ip implies now.contains(
            rows[i].ip,
        ) by {
            if i < n - 1 {
                let k = choose|k: int| 0 <= k < before.len() && before[k] == rows[i].ip;
                assert(now[k] == rows[i].ip);
            } else {
                assert(now[before.len() as int] == rows[i].ip);
            }
        }
    } else {
        assert(names =~= Seq::<Seq<char>>::empty());
    }
}

proof fn lemma_source_with(rows: Seq<RowView>, root: Seq<char>, from: nat)
    ensures
        match source_with(rows, root, from) {
            Some(i) => from <= i < rows.len() && is_source(rows[i as int])
                && rows[i as int].status.map_root == root,
            None => forall|i: int|
                from <= i < rows.len() && is_source(#[trigger] rows[i]) ==> rows[i].status.map_root
                    != root,
        },
    decreases rows.len() - from,
{
    if from < rows.len() {
        lemma_source_with(rows, root, from + 1);
    }
}

proof fn lemma_first_source(rows: Seq<RowView>, from: nat)
    ensures
        match first_source(rows, from) {
            Some(i) => from <= i < rows.len() && is_source(rows[i as int]) && forall|k: int|
                from <= k < i ==> !is_source(#[trigger] rows[k]),
            None => forall|i: int| from <= i < rows.len() ==> !is_source(#[trigger] rows[i]),
        },
    decreases rows.len() - from,
{
    if from < rows.len() {
        lemma_first_source(rows, from + 1);
    }
}

/// A map is copied from a puck that can be reached and has a persistent map with a
/// name: from the one chosen, if it is such a one, and else from one on the fleet's
/// map, if there is any. There is no source exactly where no puck is such a one.
pub proof fn the_source_has_a_map_to_copy(
    rows: Seq<RowView>,
    chosen: Option<Seq<char>>,
    shared: Option<Seq<char>>,
)
    ensures
        ({
            let fit = |r: RowView|
                r.status.reachable && r.status.map_persistent && r.status.map_root.len() > 0;
            let from = source_of(rows, chosen, shared);
            &&& from is None <==> forall|i: int| 0 <= i < rows.len() ==> !fit(#[trigger] rows[i])
            &&& from matches Some(ip) ==> exists|i: int|
                0 <= i < rows.len() && fit(#[trigger] rows[i]) && rows[i].ip == ip
            &&& (chosen matches Some(ip) && (exists|i: int|
                0 <= i < rows.len() && fit(#[trigger] rows[i]) && rows[i].ip == ip)) ==> from
                == chosen
            &&& (chosen is None && (shared matches Some(root) && exists|i: int|
                0 <= i < rows.len() && fit(#[trigger] rows[i]) && rows[i].status.map_root == root))
                ==> (exists|i: int|
                0 <= i < rows.len() && fit(#[trigger] rows[i]) && Some(rows[i].ip) == from && Some(
                    rows[i].status.map_root,
                ) == shared)
        }),
{
    lemma_first_source(rows, 0);
    if let Some(root) = shared {
        lemma_source_with(rows, root, 0);
        if let Some(i) = source_with(rows, root, 0) {
            assert(is_source(rows[i as int]));
        }
    }
    if let Some(i) = first_source(rows, 0) {
        assert(is_source(rows[i as int]));
    }
}

/// What is counted: the pucks that can be reached, and those on the persistent map
/// with that root.
pub proof fn the_banner_counts_pucks(rows: Seq<RowView>, root: Seq<char>, n: nat)
    requires
        n <= rows.len(),
    ensures
        reachable_in(rows, n) == rows.take(n as int).filter(
            |r: RowView| r.status.reachable,
        ).len(),
        sharing_in(rows, root, n) == rows.take(n as int).filter(
            |r: RowView| r.status.map_persistent && r.status.map_root == root,
        ).len(),
    decreases n,
{
    reveal(Seq::filter);
    if n > 0 {
        the_banner_counts_pucks(rows, root, (n - 1) as nat);
        assert(rows.take(n as int).drop_last() =~= rows.take(n - 1));
        assert(rows.take(n as int).last() == rows[n - 1]);
    } else {
        assert(rows.take(0) =~= Seq::<RowView>::empty());
    }
}

/// A puck's map is fine only where it is the fleet's: a persistent one with that name.
pub proof fn only_the_shared_map_is_fine(st: StatusView, shared: Option<Seq<char>>)
    ensures
        map_line_of(st, shared).1 is Fine <==> st.map_persistent && st.map_root.len() > 0 && shared
            == Some(st.map_root),
        st.map_root.len() > 0 && !st.map_persistent ==> map_line_of(st, shared).1 is Bad,
        st.map_root.len() > 0 && st.map_persistent && shared != Some(st.map_root) ==> map_line_of(
            st,
            shared,
        ).1 is Bad,
        st.map_root.len() == 0 ==> map_line_of(st, shared).1 is Warn,
{
}

} // verus!
