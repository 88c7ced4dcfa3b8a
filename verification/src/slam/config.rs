//! The site configuration and what places each puck.

use crate::book::Book;
use crate::config::{clash, clash_message, clash_text, find_clash, BridgeEntry};
use crate::ieee::Single;
use crate::monitor::texts;
use crate::mpt1::{Device, MAX_DEVICES};
use crate::text;
use std::collections::BTreeMap;
use vstd::prelude::*;

verus! {

broadcast use vstd::std_specs::btree::group_btree_axioms;

/// The site configuration.
#[derive(Debug)]
pub struct Config {
    pub listen: String,
    pub out: String,
    pub align: String,
    /// The file of the pucks' map transforms.
    pub transforms: String,
    /// The directory of the landmark map.
    pub map: String,
    pub bridge: String,
    /// The host address the pucks stream to; they need it spelled out.
    pub host: String,
    /// Solve again by itself when drift is detected.
    pub auto_realign: bool,
    pub realign_secs: u32,
    /// The pucks share one map and so already track in one world frame: no map
    /// transform is solved, stored or applied. Only the bridges remain.
    pub colocated: bool,
    pub pucks: Vec<PuckCfg>,
}

#[derive(Debug)]
pub struct PuckCfg {
    pub ip: String,
    pub device: u8,
    /// Marks the reference puck where no role does.
    pub reference: bool,
    /// `hip` for the puck that is the shared frame.
    pub role: Option<String>,
}

/// What a roster entry says.
#[verifier::ext_equal]
pub ghost struct PuckView {
    pub ip: Seq<char>,
    pub device: u8,
    pub reference: bool,
    pub role: Option<Seq<char>>,
}

impl View for PuckCfg {
    type V = PuckView;

    open spec fn view(&self) -> PuckView {
        PuckView {
            ip: self.ip@,
            device: self.device,
            reference: self.reference,
            role: match self.role {
                Some(s) => Some(s@),
                None => None,
            },
        }
    }
}

/// What a roster says.
pub open spec fn roster_view(s: Seq<PuckCfg>) -> Seq<PuckView> {
    s.map_values(|p: PuckCfg| p@)
}

impl PuckView {
    /// Whether the puck is marked as the hip.
    pub open spec fn hip(self) -> bool {
        self.role == Some("hip"@)
    }
}

impl PuckCfg {
    /// Whether the puck is marked as the hip.
    pub fn is_hip(&self) -> (r: bool)
        ensures
            r == self@.hip(),
    {
        match &self.role {
            Some(s) => text::same(s.as_str(), "hip"),
            None => false,
        }
    }
}

/// The first puck, from `from` on, that is marked as the hip.
pub open spec fn hip_from(pucks: Seq<PuckView>, from: nat) -> Option<nat>
    decreases pucks.len() - from,
{
    if from >= pucks.len() {
        None
    } else if pucks[from as int].hip() {
        Some(from)
    } else {
        hip_from(pucks, from + 1)
    }
}

/// The first puck, from `from` on, that is marked as the reference.
pub open spec fn reference_from(pucks: Seq<PuckView>, from: nat) -> Option<nat>
    decreases pucks.len() - from,
{
    if from >= pucks.len() {
        None
    } else if pucks[from as int].reference {
        Some(from)
    } else {
        reference_from(pucks, from + 1)
    }
}

/// The puck whose world frame is the shared frame: the hip, else the reference,
/// else the first.
pub open spec fn hip_at(pucks: Seq<PuckView>) -> Option<nat> {
    match hip_from(pucks, 0) {
        Some(i) => Some(i),
        None => match reference_from(pucks, 0) {
            Some(i) => Some(i),
            None => if pucks.len() > 0 {
                Some(0)
            } else {
                None
            },
        },
    }
}

/// Whether puck `i` holds the shared frame: it is marked as the hip, or is what a
/// roster without a hip falls back to.
pub open spec fn holds_frame(pucks: Seq<PuckView>, i: int) -> bool {
    pucks[i].hip() || hip_at(pucks) == Some(i as nat)
}

/// The addresses of the first `n` pucks, without those that hold the shared frame.
pub open spec fn ankles_among(pucks: Seq<PuckView>, n: nat) -> Seq<Seq<char>>
    decreases n,
{
    if n == 0 {
        Seq::empty()
    } else {
        let before = ankles_among(pucks, (n - 1) as nat);
        if holds_frame(pucks, n - 1) {
            before
        } else {
            before.push(pucks[n - 1].ip)
        }
    }
}

fn hip_index(pucks: &[PuckCfg]) -> (r: Option<usize>)
    ensures
        match r {
            Some(i) => hip_at(roster_view(pucks@)) == Some(i as nat) && i < pucks@.len(),
            None => hip_at(roster_view(pucks@)) is None,
        },
{
    let ghost all = roster_view(pucks@);
    let mut i: usize = 0;
    while i < pucks.len()
        invariant
            i <= pucks.len(),
            all == roster_view(pucks@),
            hip_from(all, 0) == hip_from(all, i as nat),
        decreases pucks.len() - i,
    {
        if pucks[i].is_hip() {
            return Some(i);
        }
        i = i + 1;
    }
    let mut k: usize = 0;
    while k < pucks.len()
        invariant
            k <= pucks.len(),
            all == roster_view(pucks@),
            hip_from(all, 0) is None,
            reference_from(all, 0) == reference_from(all, k as nat),
        decreases pucks.len() - k,
    {
        if pucks[k].reference {
            return Some(k);
        }
        k = k + 1;
    }
    if pucks.len() > 0 {
        Some(0)
    } else {
        None
    }
}

/// For each puck of a roster, whether it holds the shared frame.
fn frames(pucks: &[PuckCfg]) -> (r: Vec<bool>)
    ensures
        r@.len() == pucks@.len(),
        forall|i: int|
            0 <= i < r@.len() ==> #[trigger] r@[i] == holds_frame(roster_view(pucks@), i),
{
    let hip = hip_index(pucks);
    let mut out: Vec<bool> = Vec::new();
    let mut i: usize = 0;
    while i < pucks.len()
        invariant
            i <= pucks.len(),
            out@.len() == i,
            match hip {
                Some(k) => hip_at(roster_view(pucks@)) == Some(k as nat),
                None => hip_at(roster_view(pucks@)) is None,
            },
            forall|k: int|
                0 <= k < i ==> #[trigger] out@[k] == holds_frame(roster_view(pucks@), k),
        decreases pucks.len() - i,
    {
        let chosen = match hip {
            Some(k) => k == i,
            None => false,
        };
        out.push(pucks[i].is_hip() || chosen);
        i = i + 1;
    }
    out
}

/// The roles of a roster, in its order.
pub open spec fn devices_of(pucks: Seq<PuckView>) -> Seq<u8> {
    pucks.map_values(|p: PuckView| p.device)
}

/// How a roster is judged: no role may be given twice.
pub open spec fn verdict(pucks: Seq<PuckView>) -> Result<(), Seq<char>> {
    match clash(devices_of(pucks), 0) {
        Some((i, k)) => Err(
            clash_text(pucks[i as int].ip, pucks[k as int].ip, pucks[k as int].device),
        ),
        None => Ok(()),
    }
}

/// `value`, or the text that stands for it where there is none.
fn or_text(value: Option<String>, default: &str) -> (r: String)
    ensures
        r@ == (match value {
            Some(s) => s@,
            None => default@,
        }),
{
    match value {
        Some(s) => s,
        None => default.to_string(),
    }
}

/// What a configuration file says of the places where things are. Each may be
/// left out.
#[derive(Debug)]
pub struct Places {
    pub listen: Option<String>,
    pub out: Option<String>,
    pub align: Option<String>,
    pub transforms: Option<String>,
    pub map: Option<String>,
    pub bridge: Option<String>,
}

/// The text of a place, `default` where it is left out.
pub open spec fn place(value: Option<String>, default: Seq<char>) -> Seq<char> {
    match value {
        Some(s) => s@,
        None => default,
    }
}

impl Config {
    /// A configuration, with what the file leaves out filled in.
    pub fn with_defaults(
        places: Places,
        host: String,
        auto_realign: bool,
        realign_secs: Option<u32>,
        colocated: bool,
        pucks: Vec<PuckCfg>,
    ) -> (r: Config)
        ensures
            r.listen@ == place(places.listen, "0.0.0.0:5180"@),
            r.out@ == place(places.out, "127.0.0.1:5181"@),
            r.align@ == place(places.align, "align_result.json"@),
            r.transforms@ == place(places.transforms, "transforms.json"@),
            r.map@ == place(places.map, "map"@),
            r.bridge@ == place(places.bridge, "bridge.json"@),
            r.host == host,
            r.auto_realign == auto_realign,
            r.realign_secs == (match realign_secs {
                Some(n) => n,
                None => 25,
            }),
            r.colocated == colocated,
            r.pucks == pucks,
    {
        Config {
            listen: or_text(places.listen, "0.0.0.0:5180"),
            out: or_text(places.out, "127.0.0.1:5181"),
            align: or_text(places.align, "align_result.json"),
            transforms: or_text(places.transforms, "transforms.json"),
            map: or_text(places.map, "map"),
            bridge: or_text(places.bridge, "bridge.json"),
            host,
            auto_realign,
            realign_secs: match realign_secs {
                Some(n) => n,
                None => 25,
            },
            colocated,
            pucks,
        }
    }

    /// The puck whose world frame is the shared frame.
    pub fn hip(&self) -> (r: Option<&PuckCfg>)
        ensures
            match hip_at(roster_view(self.pucks@)) {
                Some(i) => r == Some(&self.pucks@[i as int]) && i < self.pucks@.len(),
                None => r is None,
            },
    {
        match hip_index(self.pucks.as_slice()) {
            Some(i) => Some(&self.pucks[i]),
            None => None,
        }
    }

    /// For each puck, whether it holds the shared frame, and so only checks itself.
    /// The others localize into it.
    pub fn hips(&self) -> (r: Vec<bool>)
        ensures
            r@.len() == self.pucks@.len(),
            forall|i: int|
                0 <= i < r@.len() ==> #[trigger] r@[i] == holds_frame(
                    roster_view(self.pucks@),
                    i,
                ),
    {
        frames(self.pucks.as_slice())
    }

    /// The addresses of the pucks that do not hold the shared frame.
    pub fn ankles(&self) -> (r: Vec<String>)
        ensures
            texts(r@) == ankles_among(roster_view(self.pucks@), self.pucks@.len()),
    {
        let hips = self.hips();
        let ghost all = roster_view(self.pucks@);
        let mut out: Vec<String> = Vec::new();
        let mut i: usize = 0;
        proof {
            assert(texts(out@) =~= Seq::<Seq<char>>::empty());
        }
        while i < self.pucks.len()
            invariant
                i <= self.pucks.len(),
                all == roster_view(self.pucks@),
                hips@.len() == self.pucks@.len(),
                forall|k: int| 0 <= k < hips@.len() ==> #[trigger] hips@[k] == holds_frame(all, k),
                texts(out@) == ankles_among(all, i as nat),
            decreases self.pucks.len() - i,
        {
            if !hips[i] {
                let ghost before = texts(out@);
                out.push(self.pucks[i].ip.clone());
                proof {
                    assert(texts(out@) =~= before.push(all[i as int].ip));
                }
            }
            i = i + 1;
        }
        out
    }

    /// Accept what reading the file at `path` gave, or say why not: it could not
    /// be read, or it would fail silently at runtime.
    pub fn load(path: &str, read: Result<Config, String>) -> (r: Result<Config, String>)
        ensures
            match read {
                Err(e) => r matches Err(m) && m@ == path@ + ": "@ + e@,
                Ok(cfg) => match verdict(roster_view(cfg.pucks@)) {
                    Err(e) => r matches Err(m) && m@ == path@ + ": "@ + e,
                    Ok(_) => r == Ok::<Config, String>(cfg),
                },
            },
    {
        match read {
            Err(e) => Err(text::glue3(path, ": ", e.as_str())),
            Ok(cfg) => match cfg.validate() {
                Err(e) => Err(text::glue3(path, ": ", e.as_str())),
                Ok(()) => Ok(cfg),
            },
        }
    }

    /// Refuse a configuration that would fail silently at runtime: of two pucks
    /// that share a role the ingest keeps whichever spoke last, and the tracker
    /// flickers between two bodies.
    pub fn validate(&self) -> (r: Result<(), String>)
        ensures
            match r {
                Ok(_) => verdict(roster_view(self.pucks@)) is Ok,
                Err(e) => verdict(roster_view(self.pucks@)) == Err::<(), Seq<char>>(e@),
            },
    {
        let mut devices: Vec<u8> = Vec::new();
        let mut i: usize = 0;
        while i < self.pucks.len()
            invariant
                i <= self.pucks.len(),
                devices@.len() == i,
                forall|k: int| 0 <= k < i ==> devices@[k] == self.pucks@[k].device,
            decreases self.pucks.len() - i,
        {
            devices.push(self.pucks[i].device);
            i = i + 1;
        }
        proof {
            assert(devices@ =~= devices_of(roster_view(self.pucks@)));
        }
        match find_clash(&devices) {
            Some((a, b)) => Err(
                clash_message(
                    self.pucks[a].ip.as_str(),
                    self.pucks[b].ip.as_str(),
                    self.pucks[b].device,
                ),
            ),
            None => Ok(()),
        }
    }
}

/// A stored transform from a puck's frame into the shared map.
#[derive(Debug)]
pub struct MapTransform {
    pub yaw_deg: Single,
    pub t: [Single; 3],
    pub unix_time: u64,
    /// `local` where the transform maps from the tracker's LOCAL frame itself,
    /// and so already contains the bridge. Otherwise it maps from the world
    /// frame.
    pub frame: Option<String>,
}

impl MapTransform {
    /// Whether the transform already contains the bridge.
    pub open spec fn from_local(self) -> bool {
        match self.frame {
            Some(s) => s@ == "local"@,
            None => false,
        }
    }

    /// Whether the transform already contains the bridge.
    pub fn is_local(&self) -> (r: bool)
        ensures
            r == self.from_local(),
    {
        match &self.frame {
            Some(s) => text::same(s.as_str(), "local"),
            None => false,
        }
    }
}

/// What takes a puck's LOCAL poses to the shared frame.
#[derive(Debug, Clone, Copy, PartialEq, Eq)]
pub enum Placement {
    /// The bridge alone: the puck's world frame is the shared frame.
    Bridged(BridgeEntry),
    /// The stored transform alone, by its yaw in degrees and its translation.
    Stored(Single, [Single; 3]),
    /// The bridge and then the stored transform.
    Composed(Single, [Single; 3], BridgeEntry),
}

/// What places a puck, if anything does. A puck missing its bridge or its map
/// transform is not emitted at all: an unaligned pose in an aligned stream is
/// worse than a missing one. `frame` says that the puck holds the shared frame, so
/// that it needs no map transform.
pub open spec fn placement(
    p: PuckView,
    frame: bool,
    colocated: bool,
    map_t: Map<Seq<char>, MapTransform>,
    bridges: Map<Seq<char>, BridgeEntry>,
) -> Option<Placement> {
    if p.device >= MAX_DEVICES || !bridges.contains_key(p.ip) {
        None
    } else if colocated {
        Some(Placement::Bridged(bridges[p.ip]))
    } else if map_t.contains_key(p.ip) {
        let m = map_t[p.ip];
        if m.from_local() {
            Some(Placement::Stored(m.yaw_deg, m.t))
        } else {
            Some(Placement::Composed(m.yaw_deg, m.t, bridges[p.ip]))
        }
    } else if frame {
        Some(Placement::Bridged(bridges[p.ip]))
    } else {
        None
    }
}

/// What places puck `i` of a roster, if anything does.
pub open spec fn placement_of(
    pucks: Seq<PuckView>,
    i: int,
    colocated: bool,
    map_t: Map<Seq<char>, MapTransform>,
    bridges: Map<Seq<char>, BridgeEntry>,
) -> Option<Placement> {
    placement(pucks[i], holds_frame(pucks, i), colocated, map_t, bridges)
}

/// What places each role of the first `n` pucks of a roster, by role id. Of two
/// pucks with one role the later counts.
pub open spec fn placed_among(
    pucks: Seq<PuckView>,
    colocated: bool,
    map_t: Map<Seq<char>, MapTransform>,
    bridges: Map<Seq<char>, BridgeEntry>,
    n: nat,
) -> Map<u8, Placement>
    decreases n,
{
    if n == 0 {
        Map::empty()
    } else {
        let before = placed_among(pucks, colocated, map_t, bridges, (n - 1) as nat);
        match placement_of(pucks, n - 1, colocated, map_t, bridges) {
            Some(x) => before.insert(pucks[n - 1].device, x),
            None => before,
        }
    }
}

/// What places each role of a roster, by role id.
pub open spec fn placements(
    pucks: Seq<PuckView>,
    colocated: bool,
    map_t: Map<Seq<char>, MapTransform>,
    bridges: Map<Seq<char>, BridgeEntry>,
) -> Map<u8, Placement> {
    placed_among(pucks, colocated, map_t, bridges, pucks.len())
}

fn place_one(
    p: &PuckCfg,
    frame: bool,
    colocated: bool,
    map_t: &Book<MapTransform>,
    bridges: &Book<BridgeEntry>,
) -> (r: Option<Placement>)
    requires
        map_t.wf(),
        bridges.wf(),
    ensures
        r == placement(p@, frame, colocated, map_t@, bridges@),
{
    if Device::from_u8(p.device).is_none() {
        return None;
    }
    let b = match bridges.get(p.ip.as_str()) {
        None => {
            return None;
        },
        Some(b) => *b,
    };
    if colocated {
        return Some(Placement::Bridged(b));
    }
    match map_t.get(p.ip.as_str()) {
        Some(m) => if m.is_local() {
            Some(Placement::Stored(m.yaw_deg, m.t))
        } else {
            Some(Placement::Composed(m.yaw_deg, m.t, b))
        },
        None => if frame {
            Some(Placement::Bridged(b))
        } else {
            None
        },
    }
}

/// What places each role, over an explicit roster: with a stale one the output
/// is keyed by the old slot and the puck vanishes silently.
pub fn build_transforms_for(
    pucks: &[PuckCfg],
    colocated: bool,
    map_t: &Book<MapTransform>,
    bridges: &Book<BridgeEntry>,
) -> (r: BTreeMap<u8, Placement>)
    requires
        map_t.wf(),
        bridges.wf(),
    ensures
        r@ == placements(roster_view(pucks@), colocated, map_t@, bridges@),
{
    let mut out: BTreeMap<u8, Placement> = BTreeMap::new();
    let hold = frames(pucks);
    let ghost s = roster_view(pucks@);
    let mut i: usize = 0;
    while i < pucks.len()
        invariant
            i <= pucks.len(),
            map_t.wf(),
            bridges.wf(),
            s == roster_view(pucks@),
            hold@.len() == pucks@.len(),
            forall|k: int| 0 <= k < hold@.len() ==> #[trigger] hold@[k] == holds_frame(s, k),
            out@ == placed_among(s, colocated, map_t@, bridges@, i as nat),
        decreases pucks.len() - i,
    {
        if let Some(x) = place_one(&pucks[i], hold[i], colocated, map_t, bridges) {
            out.insert(pucks[i].device, x);
        }
        i = i + 1;
    }
    out
}

/// What places each role of the configured roster.
pub fn build_transforms(
    cfg: &Config,
    map_t: &Book<MapTransform>,
    bridges: &Book<BridgeEntry>,
) -> (r: BTreeMap<u8, Placement>)
    requires
        map_t.wf(),
        bridges.wf(),
    ensures
        r@ == placements(roster_view(cfg.pucks@), cfg.colocated, map_t@, bridges@),
{
    build_transforms_for(cfg.pucks.as_slice(), cfg.colocated, map_t, bridges)
}

/// Pucks that share a map are placed by their bridges alone: what is stored
/// makes no difference, so a stale entry cannot reappear in the output.
pub proof fn colocated_pucks_ignore_the_store(
    pucks: Seq<PuckView>,
    some: Map<Seq<char>, MapTransform>,
    other: Map<Seq<char>, MapTransform>,
    bridges: Map<Seq<char>, BridgeEntry>,
)
    ensures
        placements(pucks, true, some, bridges) == placements(pucks, true, other, bridges),
        forall|d: u8|
            placements(pucks, true, some, bridges).contains_key(d)
                ==> #[trigger] placements(pucks, true, some, bridges)[d] is Bridged,
{
    lemma_colocated(pucks, some, other, bridges, pucks.len());
}

proof fn lemma_colocated(
    pucks: Seq<PuckView>,
    some: Map<Seq<char>, MapTransform>,
    other: Map<Seq<char>, MapTransform>,
    bridges: Map<Seq<char>, BridgeEntry>,
    n: nat,
)
    ensures
        placed_among(pucks, true, some, bridges, n) == placed_among(pucks, true, other, bridges, n),
        forall|d: u8|
            placed_among(pucks, true, some, bridges, n).contains_key(d)
                ==> #[trigger] placed_among(pucks, true, some, bridges, n)[d] is Bridged,
    decreases n,
{
    if n > 0 {
        lemma_colocated(pucks, some, other, bridges, (n - 1) as nat);
    }
}

/// A stored transform that already contains the bridge is never composed with
/// it: that would apply the bridge twice.
pub proof fn no_bridge_is_applied_twice(
    pucks: Seq<PuckView>,
    i: int,
    colocated: bool,
    map_t: Map<Seq<char>, MapTransform>,
    bridges: Map<Seq<char>, BridgeEntry>,
)
    requires
        0 <= i < pucks.len(),
        map_t.contains_key(pucks[i].ip),
        map_t[pucks[i].ip].from_local(),
    ensures
        !(placement_of(pucks, i, colocated, map_t, bridges) matches Some(
            Placement::Composed(_, _, _),
        )),
{
}

/// Without a bridge, or without a map transform where one is needed, a puck is
/// not placed; a puck that holds the shared frame needs none.
pub proof fn an_unaligned_puck_is_not_emitted(
    pucks: Seq<PuckView>,
    i: int,
    map_t: Map<Seq<char>, MapTransform>,
    bridges: Map<Seq<char>, BridgeEntry>,
)
    requires
        0 <= i < pucks.len(),
    ensures
        placement_of(pucks, i, false, map_t, bridges) is Some <==> pucks[i].device < MAX_DEVICES
            && bridges.contains_key(pucks[i].ip) && (map_t.contains_key(pucks[i].ip)
            || holds_frame(pucks, i)),
        placement_of(pucks, i, true, map_t, bridges) is Some <==> pucks[i].device < MAX_DEVICES
            && bridges.contains_key(pucks[i].ip),
{
}

/// The puck that stands for the hip is placed by its bridge alone as long as nothing
/// is stored for it, whether it is marked as the hip, as the reference, or is just
/// the first: it is the shared frame.
pub proof fn the_shared_frame_needs_no_store(
    pucks: Seq<PuckView>,
    i: int,
    map_t: Map<Seq<char>, MapTransform>,
    bridges: Map<Seq<char>, BridgeEntry>,
)
    requires
        0 <= i < pucks.len(),
        hip_at(pucks) == Some(i as nat),
        pucks[i].device < MAX_DEVICES,
        bridges.contains_key(pucks[i].ip),
        !map_t.contains_key(pucks[i].ip),
    ensures
        placement_of(pucks, i, false, map_t, bridges) == Some(
            Placement::Bridged(bridges[pucks[i].ip]),
        ),
{
}

proof fn lemma_hip_from(pucks: Seq<PuckView>, from: nat)
    ensures
        match hip_from(pucks, from) {
            Some(i) => from <= i < pucks.len() && pucks[i as int].hip() && forall|k: int|
                from <= k < i ==> !(#[trigger] pucks[k]).hip(),
            None => forall|k: int| from <= k < pucks.len() ==> !(#[trigger] pucks[k]).hip(),
        },
    decreases pucks.len() - from,
{
    if from < pucks.len() && !pucks[from as int].hip() {
        lemma_hip_from(pucks, from + 1);
    }
}

proof fn lemma_reference_from(pucks: Seq<PuckView>, from: nat)
    ensures
        match reference_from(pucks, from) {
            Some(i) => from <= i < pucks.len() && pucks[i as int].reference && forall|k: int|
                from <= k < i ==> !(#[trigger] pucks[k]).reference,
            None => forall|k: int| from <= k < pucks.len() ==> !(#[trigger] pucks[k]).reference,
        },
    decreases pucks.len() - from,
{
    if from < pucks.len() && !pucks[from as int].reference {
        lemma_reference_from(pucks, from + 1);
    }
}

/// One puck stands for the hip in every roster that has pucks: the first whose role is
/// hip, else the first that is marked as the reference, else the first of all.
pub proof fn one_puck_stands_for_the_hip(pucks: Seq<PuckView>)
    ensures
        pucks.len() == 0 <==> hip_at(pucks) is None,
        hip_at(pucks) matches Some(i) ==> {
            let no_hip = forall|k: int| 0 <= k < pucks.len() ==> !(#[trigger] pucks[k]).hip();
            let no_reference = forall|k: int|
                0 <= k < pucks.len() ==> !(#[trigger] pucks[k]).reference;
            &&& i < pucks.len()
            &&& !no_hip ==> pucks[i as int].hip() && forall|k: int|
                0 <= k < i ==> !(#[trigger] pucks[k]).hip()
            &&& no_hip && !no_reference ==> pucks[i as int].reference && forall|k: int|
                0 <= k < i ==> !(#[trigger] pucks[k]).reference
            &&& no_hip && no_reference ==> i == 0
        },
{
    lemma_hip_from(pucks, 0);
    lemma_reference_from(pucks, 0);
}

/// Every puck that does not hold the shared frame is an ankle, in order, and no other
/// is.
pub proof fn every_other_puck_is_an_ankle(pucks: Seq<PuckView>, n: nat, i: int)
    requires
        0 <= i < n <= pucks.len(),
        forall|a: int, b: int|
            0 <= a < b < pucks.len() ==> (#[trigger] pucks[a]).ip != (#[trigger] pucks[b]).ip,
    ensures
        ankles_among(pucks, n).contains(pucks[i].ip) <==> !holds_frame(pucks, i),
    decreases n,
{
    let before = ankles_among(pucks, (n - 1) as nat);
    let now = ankles_among(pucks, n);
    if i < n - 1 {
        every_other_puck_is_an_ankle(pucks, (n - 1) as nat, i);
        assert(pucks[i].ip != pucks[n - 1].ip);
        if before.contains(pucks[i].ip) {
            let k = choose|k: int| 0 <= k < before.len() && before[k] == pucks[i].ip;
            assert(now[k] == pucks[i].ip);
        }
        if now.contains(pucks[i].ip) {
            let k = choose|k: int| 0 <= k < now.len() && now[k] == pucks[i].ip;
            assert(k < before.len());
            assert(before[k] == pucks[i].ip);
        }
    } else {
        lemma_no_ankle_yet(pucks, (n - 1) as nat, i);
        if !holds_frame(pucks, i) {
            assert(now[before.len() as int] == pucks[i].ip);
        }
    }
}

proof fn lemma_no_ankle_yet(pucks: Seq<PuckView>, n: nat, i: int)
    requires
        n <= i < pucks.len(),
        forall|a: int, b: int|
            0 <= a < b < pucks.len() ==> (#[trigger] pucks[a]).ip != (#[trigger] pucks[b]).ip,
    ensures
        !ankles_among(pucks, n).contains(pucks[i].ip),
    decreases n,
{
    if n > 0 {
        lemma_no_ankle_yet(pucks, (n - 1) as nat, i);
        let before = ankles_among(pucks, (n - 1) as nat);
        let now = ankles_among(pucks, n);
        assert(pucks[n - 1].ip != pucks[i].ip);
        if now.contains(pucks[i].ip) {
            let k = choose|k: int| 0 <= k < now.len() && now[k] == pucks[i].ip;
            assert(k < before.len());
            assert(before[k] == pucks[i].ip);
        }
    }
}

/// What places a role is what places the last puck with that role that is placed at
/// all.
pub proof fn a_role_is_placed_by_its_puck(
    pucks: Seq<PuckView>,
    colocated: bool,
    map_t: Map<Seq<char>, MapTransform>,
    bridges: Map<Seq<char>, BridgeEntry>,
    n: nat,
    k: int,
)
    requires
        0 <= k < n <= pucks.len(),
        placement_of(pucks, k, colocated, map_t, bridges) is Some,
        forall|i: int|
            k < i < n && (#[trigger] pucks[i]).device == pucks[k].device ==> placement_of(
                pucks,
                i,
                colocated,
                map_t,
                bridges,
            ) is None,
    ensures
        placed_among(pucks, colocated, map_t, bridges, n).contains_key(pucks[k].device),
        Some(placed_among(pucks, colocated, map_t, bridges, n)[pucks[k].device]) == placement_of(
            pucks,
            k,
            colocated,
            map_t,
            bridges,
        ),
    decreases n,
{
    if k < n - 1 {
        a_role_is_placed_by_its_puck(pucks, colocated, map_t, bridges, (n - 1) as nat, k);
        if pucks[n - 1].device == pucks[k].device {
            assert(placement_of(pucks, n - 1, colocated, map_t, bridges) is None);
        }
    }
}

/// How a puck is placed, once it has a bridge and a role: by the bridge alone where
/// pucks share a map, and else by what is stored for it, on top of the bridge unless
/// that is in it already.
pub proof fn a_puck_is_placed_by_what_is_stored(
    pucks: Seq<PuckView>,
    i: int,
    colocated: bool,
    map_t: Map<Seq<char>, MapTransform>,
    bridges: Map<Seq<char>, BridgeEntry>,
)
    requires
        0 <= i < pucks.len(),
        pucks[i].device < 11,
        bridges.contains_key(pucks[i].ip),
    ensures
        ({
            let p = placement_of(pucks, i, colocated, map_t, bridges);
            let b = bridges[pucks[i].ip];
            let m = map_t[pucks[i].ip];
            &&& colocated ==> p == Some(Placement::Bridged(b))
            &&& !colocated && map_t.contains_key(pucks[i].ip) ==> p == Some(
                if m.frame is Some && m.frame->0@ == "local"@ {
                    Placement::Stored(m.yaw_deg, m.t)
                } else {
                    Placement::Composed(m.yaw_deg, m.t, b)
                },
            )
        }),
{
}

} // verus!
