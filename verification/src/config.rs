//! Configuration and the on-disk bridge file.
//!
//! Two JSON files, one owner each:
//! * `insight-map-loader.json`, the site config: puck addresses, roles, ports.
//!   Human-edited, but `device` is also written when a role is assigned.
//! * `bridge.json`, each puck's LOCAL to world transform for the current tracker
//!   session.
//!
//! There is no inter-puck alignment file: the pucks share one map, so the
//! transform between their world frames is the identity, and the bridge is the
//! only stored calibration.

use crate::book::Book;
use crate::ieee::Single;
use crate::json;
use crate::json::{trees, Json};
use crate::mpt1::Device;
use crate::text;
use serde_json::Value;
use std::collections::BTreeMap;
use vstd::prelude::*;

verus! {

broadcast use vstd::std_specs::btree::group_btree_axioms;

/// The site configuration.
#[derive(Debug)]
pub struct Config {
    pub listen: String,
    pub out: String,
    pub bridge: String,
    /// The host address the pucks stream to; they need it spelled out.
    pub host: String,
    pub pucks: Vec<PuckCfg>,
}

#[derive(Debug)]
pub struct PuckCfg {
    pub ip: String,
    /// The SteamVR role this puck should appear as. Host-side only.
    pub device: u8,
    /// The id this puck stamps into every packet, assigned once at provision.
    /// Absent means that the puck stamps its role directly.
    pub id: Option<u8>,
}

/// What a roster entry says.
#[verifier::ext_equal]
pub ghost struct PuckView {
    pub ip: Seq<char>,
    pub device: u8,
    pub id: Option<u8>,
}

impl View for PuckCfg {
    type V = PuckView;

    open spec fn view(&self) -> PuckView {
        PuckView { ip: self.ip@, device: self.device, id: self.id }
    }
}

impl Clone for PuckCfg {
    fn clone(&self) -> (r: PuckCfg)
        ensures
            r@ == self@,
    {
        PuckCfg { ip: self.ip.clone(), device: self.device, id: self.id }
    }
}

/// What a roster says.
pub open spec fn roster_view(s: Seq<PuckCfg>) -> Seq<PuckView> {
    s.map_values(|p: PuckCfg| p@)
}

/// A copy of a roster.
pub fn copy_roster(pucks: &[PuckCfg]) -> (r: Vec<PuckCfg>)
    ensures
        roster_view(r@) == roster_view(pucks@),
{
    let mut out: Vec<PuckCfg> = Vec::new();
    let mut i: usize = 0;
    while i < pucks.len()
        invariant
            i <= pucks.len(),
            out@.len() == i,
            forall|k: int| 0 <= k < i ==> (#[trigger] out@[k])@ == pucks@[k]@,
        decreases pucks.len() - i,
    {
        out.push(pucks[i].clone());
        i = i + 1;
    }
    proof {
        assert(roster_view(out@) =~= roster_view(pucks@));
    }
    out
}

/// The pucks of a roster whose role exists, in its order.
pub open spec fn roled(pucks: Seq<PuckView>) -> Seq<PuckView> {
    pucks.filter(|p: PuckView| Device::coded(p.device) is Some)
}

/// The roster without the pucks whose role is unknown.
pub fn with_roles(pucks: &[PuckCfg]) -> (r: Vec<PuckCfg>)
    ensures
        roster_view(r@) == roled(roster_view(pucks@)),
{
    let ghost all = roster_view(pucks@);
    let mut out: Vec<PuckCfg> = Vec::new();
    let mut i: usize = 0;
    proof {
        reveal(Seq::filter);
        assert(all.take(0) =~= Seq::<PuckView>::empty());
        assert(roster_view(out@) =~= roled(all.take(0)));
    }
    while i < pucks.len()
        invariant
            i <= pucks.len(),
            all == roster_view(pucks@),
            roster_view(out@) == roled(all.take(i as int)),
        decreases pucks.len() - i,
    {
        proof {
            reveal(Seq::filter);
            assert(all.take(i + 1).drop_last() =~= all.take(i as int));
            assert(all.take(i + 1).last() == pucks@[i as int]@);
        }
        if Device::from_u8(pucks[i].device).is_some() {
            let ghost before = roster_view(out@);
            out.push(pucks[i].clone());
            proof {
                assert(roster_view(out@) =~= before.push(all[i as int]));
            }
        }
        i = i + 1;
    }
    proof {
        assert(all.take(all.len() as int) =~= all);
    }
    out
}

impl PuckView {
    /// The byte this puck stamps: its id once it has one, else its role.
    pub open spec fn stamp(self) -> u8 {
        match self.id {
            Some(id) => id,
            None => self.device,
        }
    }
}

impl PuckCfg {
    /// The byte this puck stamps: its id once it has one, else its role.
    pub fn source(&self) -> (r: u8)
        ensures
            r == self@.stamp(),
    {
        match self.id {
            Some(id) => id,
            None => self.device,
        }
    }
}

/// Which role each source byte is published as. Of two pucks that stamp the same
/// byte, the later one counts; a puck whose role is unknown claims nothing.
pub open spec fn role_map(pucks: Seq<PuckView>) -> Map<u8, Device>
    decreases pucks.len(),
{
    if pucks.len() == 0 {
        Map::empty()
    } else {
        let before = role_map(pucks.drop_last());
        match Device::coded(pucks.last().device) {
            Some(role) => before.insert(pucks.last().stamp(), role),
            None => before,
        }
    }
}

/// Map the byte a puck stamps onto the role it is published as.
///
/// A source byte that no puck claims is not in the map, so that an unknown puck
/// can be reported instead of adopting whatever slot it names.
pub fn source_to_role(pucks: &[PuckCfg]) -> (r: BTreeMap<u8, Device>)
    ensures
        r@ == role_map(roster_view(pucks@)),
{
    let mut m: BTreeMap<u8, Device> = BTreeMap::new();
    let mut i: usize = 0;
    proof {
        assert(roster_view(pucks@).take(0) =~= Seq::<PuckView>::empty());
    }
    while i < pucks.len()
        invariant
            i <= pucks.len(),
            m@ == role_map(roster_view(pucks@).take(i as int)),
        decreases pucks.len() - i,
    {
        proof {
            let s = roster_view(pucks@);
            assert(s.take(i + 1).drop_last() =~= s.take(i as int));
            assert(s.take(i + 1).last() == pucks@[i as int]@);
        }
        if let Some(role) = Device::from_u8(pucks[i].device) {
            m.insert(pucks[i].source(), role);
        }
        i = i + 1;
    }
    proof {
        assert(roster_view(pucks@).take(pucks@.len() as int) =~= roster_view(pucks@));
    }
    m
}

/// Only a byte that some puck stamps resolves to a role, and to that puck's.
pub proof fn an_unclaimed_source_resolves_to_nothing(pucks: Seq<PuckView>, src: u8)
    ensures
        role_map(pucks).contains_key(src) <==> exists|i: int|
            0 <= i < pucks.len() && (#[trigger] pucks[i]).stamp() == src && Device::coded(
                pucks[i].device,
            ) is Some,
    decreases pucks.len(),
{
    if pucks.len() > 0 {
        let front = pucks.drop_last();
        an_unclaimed_source_resolves_to_nothing(front, src);
        if role_map(pucks).contains_key(src) {
            if role_map(front).contains_key(src) {
                let i = choose|i: int|
                    0 <= i < front.len() && (#[trigger] front[i]).stamp() == src && Device::coded(
                        front[i].device,
                    ) is Some;
                assert(pucks[i] == front[i]);
            } else {
                assert(pucks[pucks.len() - 1].stamp() == src);
            }
        }
        if exists|i: int|
            0 <= i < pucks.len() && (#[trigger] pucks[i]).stamp() == src && Device::coded(
                pucks[i].device,
            ) is Some {
            let i = choose|i: int|
                0 <= i < pucks.len() && (#[trigger] pucks[i]).stamp() == src && Device::coded(
                    pucks[i].device,
                ) is Some;
            if i < front.len() {
                assert(front[i] == pucks[i]);
            }
        }
    }
}

/// The same roster with the role of every puck at `ip` changed: what a role
/// assignment does.
pub open spec fn reassigned(pucks: Seq<PuckView>, ip: Seq<char>, device: u8) -> Seq<PuckView> {
    pucks.map_values(
        |p: PuckView|
            if p.ip == ip {
                PuckView { device, ..p }
            } else {
                p
            },
    )
}

/// Reassigning the role of a puck with a stable id changes nothing of what any
/// puck sends: the same source bytes resolve before and after, and the puck's
/// byte resolves to the new role.
pub proof fn a_role_change_is_host_side(pucks: Seq<PuckView>, at: int, device: u8, role: Device)
    requires
        0 <= at < pucks.len(),
        pucks[at].id is Some,
        Device::coded(pucks[at].device) is Some,
        Device::coded(device) == Some(role),
        forall|i: int|
            0 <= i < pucks.len() && i != at ==> (#[trigger] pucks[i]).ip != pucks[at].ip
                && pucks[i].stamp() != pucks[at].stamp(),
    ensures
        role_map(reassigned(pucks, pucks[at].ip, device)) == role_map(pucks).insert(
            pucks[at].stamp(),
            role,
        ),
        role_map(reassigned(pucks, pucks[at].ip, device)).dom() == role_map(pucks).dom(),
    decreases pucks.len(),
{
    let ip = pucks[at].ip;
    let after = reassigned(pucks, ip, device);
    let front = pucks.drop_last();
    assert(after.drop_last() =~= reassigned(front, ip, device));
    if at == pucks.len() - 1 {
        assert(reassigned(front, ip, device) =~= front) by {
            assert forall|i: int| 0 <= i < front.len() implies reassigned(front, ip, device)[i]
                == front[i] by {
                assert(pucks[i].ip != ip);
            }
        }
        assert(role_map(after) =~= role_map(pucks).insert(pucks[at].stamp(), role));
    } else {
        assert forall|i: int| 0 <= i < front.len() && i != at implies (#[trigger] front[i]).ip
            != front[at].ip && front[i].stamp() != front[at].stamp() by {
            assert(front[i] == pucks[i]);
        }
        a_role_change_is_host_side(front, at, device, role);
        let last = pucks.last();
        assert(pucks[pucks.len() - 1].ip != ip);
        assert(after.last() == last);
        assert(role_map(after) =~= role_map(pucks).insert(pucks[at].stamp(), role));
    }
    an_unclaimed_source_resolves_to_nothing(pucks, pucks[at].stamp());
    assert(role_map(pucks).contains_key(pucks[at].stamp()));
    assert(role_map(after).dom() =~= role_map(pucks).dom());
}

/// The first position before `at` that holds the same byte.
pub open spec fn twin(devices: Seq<u8>, at: nat, from: nat) -> Option<nat>
    decreases at - from,
{
    if from >= at {
        None
    } else if devices[from as int] == devices[at as int] {
        Some(from)
    } else {
        twin(devices, at, from + 1)
    }
}

/// The first position, from `from` on, whose byte stands before it already, and
/// where that is.
pub open spec fn clash(devices: Seq<u8>, from: nat) -> Option<(nat, nat)>
    decreases devices.len() - from,
{
    if from >= devices.len() {
        None
    } else {
        match twin(devices, from, 0) {
            Some(i) => Some((i, from)),
            None => clash(devices, from + 1),
        }
    }
}

/// The first byte that stands twice, and where.
pub fn find_clash(devices: &Vec<u8>) -> (r: Option<(usize, usize)>)
    ensures
        match r {
            Some((i, k)) => clash(devices@, 0) == Some((i as nat, k as nat)) && i < k
                < devices@.len(),
            None => clash(devices@, 0) is None,
        },
{
    let mut k: usize = 0;
    while k < devices.len()
        invariant
            k <= devices.len(),
            clash(devices@, 0) == clash(devices@, k as nat),
        decreases devices.len() - k,
    {
        let mut i: usize = 0;
        while i < k
            invariant
                i <= k < devices.len(),
                twin(devices@, k as nat, 0) == twin(devices@, k as nat, i as nat),
                clash(devices@, 0) == clash(devices@, k as nat),
            decreases k - i,
        {
            if devices[i] == devices[k] {
                return Some((i, k));
            }
            i = i + 1;
        }
        k = k + 1;
    }
    None
}

proof fn lemma_twin(devices: Seq<u8>, at: nat, from: nat)
    requires
        at < devices.len(),
    ensures
        twin(devices, at, from) is None <==> forall|i: int|
            from <= i < at ==> devices[i] != devices[at as int],
        twin(devices, at, from) matches Some(i) ==> from <= i < at && devices[i as int]
            == devices[at as int],
    decreases at - from,
{
    if from < at && devices[from as int] != devices[at as int] {
        lemma_twin(devices, at, from + 1);
    }
}

proof fn lemma_clash(devices: Seq<u8>, from: nat)
    ensures
        clash(devices, from) is None <==> forall|i: int, k: int|
            0 <= i < k < devices.len() && from <= k ==> devices[i] != devices[k],
        clash(devices, from) matches Some((i, k)) ==> i < k < devices.len() && devices[i as int]
            == devices[k as int],
    decreases devices.len() - from,
{
    if from < devices.len() {
        lemma_twin(devices, from, 0);
        lemma_clash(devices, from + 1);
    }
}

/// How a roster with a role given twice is refused.
pub open spec fn clash_text(first: Seq<char>, second: Seq<char>, device: u8) -> Seq<char> {
    "pucks "@ + first + " and "@ + second + " both use device "@ + text::decimal_of(device as nat)
        + " -- ids must be unique, they select the SteamVR tracker"@
}

/// How a roster with a role given twice is refused.
pub fn clash_message(first: &str, second: &str, device: u8) -> (r: String)
    ensures
        r@ == clash_text(first@, second@, device),
{
    let mut s = text::glue5("pucks ", first, " and ", second, " both use device ");
    let n = text::decimal(device as u64);
    s.append(n.as_str());
    s.append(" -- ids must be unique, they select the SteamVR tracker");
    s
}

/// The roles of a roster, in its order.
pub open spec fn roles_of(pucks: Seq<PuckView>) -> Seq<u8> {
    pucks.map_values(|p: PuckView| p.device)
}

/// How a roster is judged.
pub open spec fn verdict(pucks: Seq<PuckView>) -> Result<(), Seq<char>> {
    match clash(roles_of(pucks), 0) {
        Some((i, k)) => Err(
            clash_text(pucks[i as int].ip, pucks[k as int].ip, pucks[k as int].device),
        ),
        None => Ok(()),
    }
}

/// A roster is accepted exactly where no role is given twice: the ingest keeps
/// one sample per slot, so two pucks sharing a role would fight over it.
pub proof fn accepted_roles_are_distinct(pucks: Seq<PuckView>)
    ensures
        verdict(pucks) is Ok <==> forall|i: int, k: int|
            0 <= i < k < pucks.len() ==> (#[trigger] pucks[i]).device != (
            #[trigger] pucks[k]).device,
{
    let d = roles_of(pucks);
    lemma_clash(d, 0);
    if forall|i: int, k: int|
        0 <= i < k < pucks.len() ==> (#[trigger] pucks[i]).device != (#[trigger] pucks[k]).device {
        assert forall|i: int, k: int| 0 <= i < k < d.len() implies d[i] != d[k] by {
            assert(pucks[i].device != pucks[k].device);
        }
    }
    if verdict(pucks) is Ok {
        assert forall|i: int, k: int| 0 <= i < k < pucks.len() implies (#[trigger] pucks[i]).device
            != (#[trigger] pucks[k]).device by {
            assert(d[i] != d[k]);
        }
    }
}

/// `value`, or the text that stands for it where there is none.
fn or_else(value: Option<String>, default: &str) -> (r: String)
    ensures
        r@ == (match value {
            Some(s) => s@,
            None => default@,
        }),
{
    match value {
        Some(s) => s,
        None => default.to_string(),
    }
}

/// The port that a listen address ends in, 5180 where it names none.
pub open spec fn port_of(listen: Seq<char>) -> u16 {
    let tail = match text::last_at(listen, ":"@, listen.len() - ":"@.len()) {
        Some(i) => listen.skip(i + 1),
        None => listen,
    };
    match text::unsigned_in(tail, 65535) {
        Some(p) => p as u16,
        None => 5180,
    }
}

/// The port that a listen address ends in, 5180 where it names none.
pub fn listen_port(listen: &str) -> (r: u16)
    ensures
        r == port_of(listen@),
{
    proof {
        reveal_strlit(":");
    }
    let tail = match text::rfind(listen, ":") {
        Some(i) => {
            let _len: usize = listen.unicode_len();
            text::from(listen, i + 1)
        },
        None => listen,
    };
    match text::parse_unsigned(tail, 65535) {
        Some(p) => p as u16,
        None => 5180,
    }
}

impl Config {
    /// A configuration, with what the file leaves out filled in.
    pub fn with_defaults(
        listen: Option<String>,
        out: Option<String>,
        bridge: Option<String>,
        host: String,
        pucks: Vec<PuckCfg>,
    ) -> (r: Config)
        ensures
            r.listen@ == (match listen {
                Some(s) => s@,
                None => "0.0.0.0:5180"@,
            }),
            r.out@ == (match out {
                Some(s) => s@,
                None => "127.0.0.1:5181"@,
            }),
            r.bridge@ == (match bridge {
                Some(s) => s@,
                None => "bridge.json"@,
            }),
            r.host == host,
            r.pucks == pucks,
    {
        Config {
            listen: or_else(listen, "0.0.0.0:5180"),
            out: or_else(out, "127.0.0.1:5181"),
            bridge: or_else(bridge, "bridge.json"),
            host,
            pucks,
        }
    }

    /// Accept what reading the file at `path` gave, or say why not: it could not
    /// be read, or it would fail silently at runtime.
    pub fn load(path: &str, read: Result<Config, String>) -> (r: Result<Config, String>)
        ensures
            match read {
                Err(e) => r matches Err(m) && m@ == path@ + ": "@ + e@,
                Ok(cfg) => match verdict(roster_view(cfg.pucks@)) {
                    Err(e) => r matches Err(m) && m@ == path@ + ": "@ + e,
                    Ok(_) => r == Ok::<Config, String>(cfg),
                },
            },
    {
        match read {
            Err(e) => Err(text::glue3(path, ": ", e.as_str())),
            Ok(cfg) => match cfg.validate() {
                Err(e) => Err(text::glue3(path, ": ", e.as_str())),
                Ok(()) => Ok(cfg),
            },
        }
    }

    /// Refuse a configuration that would fail silently at runtime.
    pub fn validate(&self) -> (r: Result<(), String>)
        ensures
            match r {
                Ok(_) => verdict(roster_view(self.pucks@)) is Ok,
                Err(e) => verdict(roster_view(self.pucks@)) == Err::<(), Seq<char>>(e@),
            },
    {
        let mut devices: Vec<u8> = Vec::new();
        let mut i: usize = 0;
        while i < self.pucks.len()
            invariant
                i <= self.pucks.len(),
                devices@.len() == i,
                forall|k: int| 0 <= k < i ==> devices@[k] == self.pucks@[k].device,
            decreases self.pucks.len() - i,
        {
            devices.push(self.pucks[i].device);
            i = i + 1;
        }
        proof {
            assert(devices@ =~= roles_of(roster_view(self.pucks@)));
        }
        match find_clash(&devices) {
            Some((a, b)) => Err(
                clash_message(
                    self.pucks[a].ip.as_str(),
                    self.pucks[b].ip.as_str(),
                    self.pucks[b].device,
                ),
            ),
            None => Ok(()),
        }
    }
}

/// Why a number could not be entered for a puck.
#[derive(Debug, PartialEq, Eq)]
pub enum Refusal {
    /// The document has no list of pucks.
    NoPucks,
    /// Another puck has that number.
    Taken(String),
    /// The document has no such puck.
    UnknownPuck,
}

/// What a refusal says.
pub ghost enum RefusalView {
    NoPucks,
    Taken(Seq<char>),
    UnknownPuck,
}

impl View for Refusal {
    type V = RefusalView;

    open spec fn view(&self) -> RefusalView {
        match *self {
            Refusal::NoPucks => RefusalView::NoPucks,
            Refusal::Taken(other) => RefusalView::Taken(other@),
            Refusal::UnknownPuck => RefusalView::UnknownPuck,
        }
    }
}

/// The address of an entry of the document, empty where it has none.
pub open spec fn entry_ip(e: Json) -> Seq<char> {
    match e.member("ip"@) {
        Some(v) => match v.as_text() {
            Some(s) => s,
            None => ""@,
        },
        None => ""@,
    }
}

/// Whether an entry of the document is the puck at `ip`.
pub open spec fn is_puck(e: Json, ip: Seq<char>) -> bool {
    match e.member("ip"@) {
        Some(v) => v.as_text() == Some(ip),
        None => false,
    }
}

/// Whether an entry of the document holds number `n` under `key`.
pub open spec fn holds_number(e: Json, key: Seq<char>, n: u8) -> bool {
    match e.member(key) {
        Some(v) => v.as_unsigned() == Some(n as u64),
        None => false,
    }
}

/// The first entry, from `from` on, of another puck that holds number `n`.
pub open spec fn holder_at(
    pucks: Seq<Json>,
    ip: Seq<char>,
    key: Seq<char>,
    n: u8,
    from: nat,
) -> Option<nat>
    decreases pucks.len() - from,
{
    if from >= pucks.len() {
        None
    } else if entry_ip(pucks[from as int]) != ip && holds_number(pucks[from as int], key, n) {
        Some(from)
    } else {
        holder_at(pucks, ip, key, n, from + 1)
    }
}

/// The first entry, from `from` on, that is the puck at `ip`.
pub open spec fn puck_at(pucks: Seq<Json>, ip: Seq<char>, from: nat) -> Option<nat>
    decreases pucks.len() - from,
{
    if from >= pucks.len() {
        None
    } else if is_puck(pucks[from as int], ip) {
        Some(from)
    } else {
        puck_at(pucks, ip, from + 1)
    }
}

proof fn lemma_puck_at(pucks: Seq<Json>, ip: Seq<char>, from: nat)
    ensures
        puck_at(pucks, ip, from) matches Some(k) ==> from <= k < pucks.len() && is_puck(
            pucks[k as int],
            ip,
        ) && forall|i: int| from <= i < k ==> !is_puck(#[trigger] pucks[i], ip),
        puck_at(pucks, ip, from) is None ==> forall|i: int|
            from <= i < pucks.len() ==> !is_puck(#[trigger] pucks[i], ip),
    decreases pucks.len() - from,
{
    if from < pucks.len() && !is_puck(pucks[from as int], ip) {
        lemma_puck_at(pucks, ip, from + 1);
    }
}

proof fn lemma_holder_at(pucks: Seq<Json>, ip: Seq<char>, key: Seq<char>, n: u8, from: nat)
    ensures
        holder_at(pucks, ip, key, n, from) is None ==> forall|i: int|
            from <= i < pucks.len() ==> entry_ip(#[trigger] pucks[i]) == ip || !holds_number(
                pucks[i],
                key,
                n,
            ),
        holder_at(pucks, ip, key, n, from) matches Some(k) ==> from <= k < pucks.len() && entry_ip(
            pucks[k as int],
        ) != ip && holds_number(pucks[k as int], key, n),
    decreases pucks.len() - from,
{
    if from < pucks.len() {
        lemma_holder_at(pucks, ip, key, n, from + 1);
    }
}

/// The document's list of pucks.
pub open spec fn pucks_of(root: Json) -> Option<Seq<Json>> {
    match root.member("pucks"@) {
        Some(v) => v.as_list(),
        None => None,
    }
}

/// The document with number `n` entered under `key` for the puck at `ip`, or
/// why it is not entered.
pub open spec fn entered(root: Json, ip: Seq<char>, key: Seq<char>, n: u8) -> Result<
    Json,
    RefusalView,
> {
    match pucks_of(root) {
        None => Err(RefusalView::NoPucks),
        Some(pucks) => match holder_at(pucks, ip, key, n, 0) {
            Some(k) => Err(RefusalView::Taken(entry_ip(pucks[k as int]))),
            None => match puck_at(pucks, ip, 0) {
                None => Err(RefusalView::UnknownPuck),
                Some(k) => Ok(
                    root.with(
                        "pucks"@,
                        Json::List(
                            pucks.update(
                                k as int,
                                pucks[k as int].with(key, Json::Unsigned(n as u64)),
                            ),
                        ),
                    ),
                ),
            },
        },
    }
}

/// Enter number `n` under `key` for the puck at `ip`, in the document itself:
/// what this library does not model stays as it is. A number that another puck
/// holds is refused, and so is a puck the document does not have; the document
/// is then unchanged.
pub fn enter_number(root: &mut Value, ip: &str, key: &str, n: u8) -> (r: Result<(), Refusal>)
    ensures
        match r {
            Ok(_) => entered(json::tree(*old(root)), ip@, key@, n) == Ok::<Json, RefusalView>(
                json::tree(*final(root)),
            ),
            Err(e) => entered(json::tree(*old(root)), ip@, key@, n) == Err::<Json, RefusalView>(e@)
                && json::tree(*final(root)) == json::tree(*old(root)),
        },
{
    let ghost doc = json::tree(*root);
    let at: usize = match json::get(root, "pucks") {
        None => {
            return Err(Refusal::NoPucks);
        },
        Some(list) => match json::items(list) {
            None => {
                return Err(Refusal::NoPucks);
            },
            Some(pucks) => {
                let ghost all = trees(pucks@);
                let mut i: usize = 0;
                while i < pucks.len()
                    invariant
                        i <= pucks.len(),
                        all == trees(pucks@),
                        holder_at(all, ip@, key@, n, 0) == holder_at(all, ip@, key@, n, i as nat),
                        pucks_of(doc) == Some(all),
                        doc == json::tree(*old(root)),
                        json::tree(*root) == doc,
                    decreases pucks.len() - i,
                {
                    let other = match json::get(&pucks[i], "ip") {
                        Some(v) => match json::as_str(v) {
                            Some(s) => s,
                            None => "",
                        },
                        None => "",
                    };
                    let number = match json::get(&pucks[i], key) {
                        Some(v) => json::as_u64(v),
                        None => None,
                    };
                    let held = match number {
                        Some(x) => x == n as u64,
                        None => false,
                    };
                    proof {
                        assert(all[i as int] == json::tree(pucks@[i as int]));
                    }
                    if held && !text::same(other, ip) {
                        return Err(Refusal::Taken(other.to_string()));
                    }
                    i = i + 1;
                }
                let mut k: usize = 0;
                while k < pucks.len()
                    invariant
                        k <= pucks.len(),
                        all == trees(pucks@),
                        holder_at(all, ip@, key@, n, 0) is None,
                        puck_at(all, ip@, 0) == puck_at(all, ip@, k as nat),
                        pucks_of(doc) == Some(all),
                        doc == json::tree(*old(root)),
                        json::tree(*root) == doc,
                    ensures
                        k <= pucks.len(),
                        holder_at(all, ip@, key@, n, 0) is None,
                        if k < pucks.len() {
                            puck_at(all, ip@, 0) == Some(k as nat)
                        } else {
                            puck_at(all, ip@, 0) is None
                        },
                    decreases pucks.len() - k,
                {
                    proof {
                        assert(all[k as int] == json::tree(pucks@[k as int]));
                    }
                    let found = match json::get(&pucks[k], "ip") {
                        Some(v) => match json::as_str(v) {
                            Some(s) => text::same(s, ip),
                            None => false,
                        },
                        None => false,
                    };
                    if found {
                        break;
                    }
                    k = k + 1;
                }
                if k == pucks.len() {
                    return Err(Refusal::UnknownPuck);
                }
                k
            },
        },
    };
    let ghost all = pucks_of(doc)->0;
    proof {
        lemma_puck_at(all, ip@, 0);
    }
    match json::get_mut(root, "pucks") {
        Some(list) => match json::items_mut(list) {
            Some(pucks) => {
                let ghost before = trees(pucks@);
                proof {
                    assert(before[at as int] == json::tree(pucks@[at as int]));
                }
                let value = json::of_u64(n as u64);
                json::set(&mut pucks[at], key, value);
                proof {
                    assert(trees(pucks@) =~= before.update(
                        at as int,
                        before[at as int].with(key@, Json::Unsigned(n as u64)),
                    ));
                }
                Ok(())
            },
            None => Err(Refusal::NoPucks),
        },
        None => Err(Refusal::NoPucks),
    }
}

/// How a refusal to assign a role reads.
pub open spec fn refusal_text(
    path: Seq<char>,
    ip: Seq<char>,
    key: Seq<char>,
    n: u8,
    why: RefusalView,
) -> Seq<char> {
    match why {
        RefusalView::NoPucks => path + ": no \"pucks\" array"@,
        RefusalView::Taken(other) => key + " "@ + text::decimal_of(n as nat)
            + " is already assigned to "@ + other,
        RefusalView::UnknownPuck => path + ": no puck with ip "@ + ip,
    }
}

/// How a refusal to assign a role reads.
pub fn refusal_message(path: &str, ip: &str, key: &str, n: u8, why: &Refusal) -> (r: String)
    ensures
        r@ == refusal_text(path@, ip@, key@, n, why@),
{
    match why {
        Refusal::NoPucks => text::glue(path, ": no \"pucks\" array"),
        Refusal::Taken(other) => {
            let number = text::decimal(n as u64);
            text::glue5(key, " ", number.as_str(), " is already assigned to ", other.as_str())
        },
        Refusal::UnknownPuck => text::glue3(path, ": no puck with ip ", ip),
    }
}

/// The file's new contents with number `n` entered under `key`, or the message
/// why there are none.
pub open spec fn rewritten(
    path: Seq<char>,
    file: Seq<char>,
    ip: Seq<char>,
    key: Seq<char>,
    n: u8,
) -> Result<Seq<char>, Seq<char>> {
    match json::parsed(file) {
        Err(e) => Err(path + ": "@ + e),
        Ok(root) => match entered(root, ip, key, n) {
            Err(why) => Err(refusal_text(path, ip, key, n, why)),
            Ok(new) => match json::pretty_text(new) {
                Ok(t) => Ok(t + "\n"@),
                Err(e) => Err(e),
            },
        },
    }
}

/// The file's new contents with number `n` entered under `key`.
fn rewrite(path: &str, file: &str, ip: &str, key: &str, n: u8) -> (r: Result<String, String>)
    ensures
        match r {
            Ok(s) => rewritten(path@, file@, ip@, key@, n) == Ok::<Seq<char>, Seq<char>>(s@) && (
            json::reads_back(entered(json::parsed(file@)->Ok_0, ip@, key@, n)->Ok_0)
                ==> json::parsed(s@) == Ok::<Json, Seq<char>>(
                entered(json::parsed(file@)->Ok_0, ip@, key@, n)->Ok_0,
            )),
            Err(e) => rewritten(path@, file@, ip@, key@, n) == Err::<Seq<char>, Seq<char>>(e@),
        },
{
    match json::parse(file) {
        Err(e) => Err(text::glue3(path, ": ", e.as_str())),
        Ok(root) => {
            let mut root = root;
            match enter_number(&mut root, ip, key, n) {
                Err(why) => Err(refusal_message(path, ip, key, n, &why)),
                Ok(()) => match json::pretty(&root) {
                    Err(e) => Err(e),
                    Ok(t) => Ok(text::glue(t.as_str(), "\n")),
                },
            }
        },
    }
}

/// Set one puck's `device`, its SteamVR role: the new contents of the config
/// file, given the old ones, or the message why they are refused. `path` is for
/// the message only. The new contents, where they hold no fractions, read back
/// as the edited document.
pub fn set_puck_device(path: &str, file: &str, ip: &str, device: u8) -> (r: Result<String, String>)
    ensures
        match r {
            Ok(s) => rewritten(path@, file@, ip@, "device"@, device) == Ok::<Seq<char>, Seq<char>>(
                s@,
            ) && (json::reads_back(
                entered(json::parsed(file@)->Ok_0, ip@, "device"@, device)->Ok_0,
            ) ==> json::parsed(s@) == Ok::<Json, Seq<char>>(
                entered(json::parsed(file@)->Ok_0, ip@, "device"@, device)->Ok_0,
            )),
            Err(e) => rewritten(path@, file@, ip@, "device"@, device) == Err::<
                Seq<char>,
                Seq<char>,
            >(e@),
        },
{
    rewrite(path, file, ip, "device", device)
}

/// Set one puck's stable `id`, as [`set_puck_device`] sets its role.
pub fn set_puck_id(path: &str, file: &str, ip: &str, id: u8) -> (r: Result<String, String>)
    ensures
        match r {
            Ok(s) => rewritten(path@, file@, ip@, "id"@, id) == Ok::<Seq<char>, Seq<char>>(s@) && (
            json::reads_back(entered(json::parsed(file@)->Ok_0, ip@, "id"@, id)->Ok_0)
                ==> json::parsed(s@) == Ok::<Json, Seq<char>>(
                entered(json::parsed(file@)->Ok_0, ip@, "id"@, id)->Ok_0,
            )),
            Err(e) => rewritten(path@, file@, ip@, "id"@, id) == Err::<Seq<char>, Seq<char>>(e@),
        },
{
    rewrite(path, file, ip, "id", id)
}

/// Entering a number for one puck leaves everything else in the document as it
/// was: every other top-level member, every other puck, and every other member
/// of that puck. The number is then what the puck holds.
pub proof fn the_rest_of_the_document_survives(root: Json, ip: Seq<char>, key: Seq<char>, n: u8)
    requires
        entered(root, ip, key, n) is Ok,
    ensures
        ({
            let new = entered(root, ip, key, n)->Ok_0;
            let (was, now) = (pucks_of(root)->0, pucks_of(new)->0);
            let at = puck_at(was, ip, 0)->0 as int;
            &&& pucks_of(new) is Some
            &&& now.len() == was.len()
            &&& 0 <= at < was.len() && is_puck(was[at], ip)
            &&& now[at].member(key) == Some(Json::Unsigned(n as u64))
            &&& forall|m: Seq<char>|
                m != "pucks"@ ==> #[trigger] new.member(m) == root.member(m)
            &&& forall|i: int| 0 <= i < was.len() && i != at ==> #[trigger] now[i] == was[i]
            &&& forall|m: Seq<char>|
                m != key ==> #[trigger] now[at].member(m) == was[at].member(m)
        }),
{
    let was = pucks_of(root)->0;
    lemma_puck_at(was, ip, 0);
    let at = puck_at(was, ip, 0)->0 as int;
    let value = Json::Unsigned(n as u64);
    let list = Json::List(was.update(at, was[at].with(key, value)));
    json::set_member_is_read(root, "pucks"@, list, key);
    json::set_member_is_read(was[at], key, value, key);
    assert forall|m: Seq<char>| m != "pucks"@ implies #[trigger] root.with(
        "pucks"@,
        list,
    ).member(m) == root.member(m) by {
        json::set_member_is_read(root, "pucks"@, list, m);
    }
    assert forall|m: Seq<char>| m != key implies #[trigger] was[at].with(key, value).member(m)
        == was[at].member(m) by {
        json::set_member_is_read(was[at], key, value, m);
    }
}

/// A number is entered for one puck at a time: where no two pucks of the
/// document held the same number, no two do afterwards.
pub proof fn entered_numbers_stay_distinct(
    root: Json,
    ip: Seq<char>,
    key: Seq<char>,
    n: u8,
    a: int,
    b: int,
    x: u8,
)
    requires
        entered(root, ip, key, n) is Ok,
        forall|i: int, k: int|
            0 <= i < k < pucks_of(root)->0.len() ==> entry_ip(#[trigger] pucks_of(root)->0[i])
                != entry_ip(#[trigger] pucks_of(root)->0[k]),
        !(holds_number(pucks_of(root)->0[a], key, x) && holds_number(
            pucks_of(root)->0[b],
            key,
            x,
        )),
        0 <= a < b < pucks_of(root)->0.len(),
    ensures
        ({
            let now = pucks_of(entered(root, ip, key, n)->Ok_0)->0;
            !(holds_number(now[a], key, x) && holds_number(now[b], key, x))
        }),
{
    the_rest_of_the_document_survives(root, ip, key, n);
    let was = pucks_of(root)->0;
    lemma_holder_at(was, ip, key, n, 0);
    lemma_puck_at(was, ip, 0);
    let at = puck_at(was, ip, 0)->0 as int;
    assert(entry_ip(was[at]) == ip);
    assert(entry_ip(was[a]) != entry_ip(was[b]));
}

/// Entering a number keeps a document within what reads back as it was written.
pub proof fn an_edited_document_reads_back(root: Json, ip: Seq<char>, key: Seq<char>, n: u8)
    requires
        json::reads_back(root),
        entered(root, ip, key, n) is Ok,
    ensures
        json::reads_back(entered(root, ip, key, n)->Ok_0),
{
    let was = pucks_of(root)->0;
    lemma_puck_at(was, ip, 0);
    let at = puck_at(was, ip, 0)->0 as int;
    let pucks = root.member("pucks"@)->0;
    let value = Json::Unsigned(n as u64);
    json::lemma_member_fits(root, "pucks"@);
    json::lemma_item_fits(was, at);
    json::lemma_with_fits(was[at], key, value);
    json::lemma_update_fits(was, at, was[at].with(key, value));
    json::lemma_with_fits(root, "pucks"@, Json::List(was.update(at, was[at].with(key, value))));
}

/// The lowest stable id that puck ids start from.
pub const FIRST_ID: u8 = 100;

/// Whether some puck of the roster has that id.
pub open spec fn id_taken(pucks: Seq<PuckView>, id: u8) -> bool {
    exists|i: int| 0 <= i < pucks.len() && (#[trigger] pucks[i]).id == Some(id)
}

/// The lowest free id from 100 on.
pub fn next_free_id(pucks: &[PuckCfg]) -> (r: Option<u8>)
    ensures
        match r {
            Some(id) => FIRST_ID <= id && !id_taken(roster_view(pucks@), id) && forall|x: u8|
                FIRST_ID <= x < id ==> id_taken(roster_view(pucks@), x),
            None => forall|x: u8| FIRST_ID <= x ==> id_taken(roster_view(pucks@), x),
        },
{
    let mut id: u8 = FIRST_ID;
    loop
        invariant
            FIRST_ID <= id,
            forall|x: u8| FIRST_ID <= x < id ==> id_taken(roster_view(pucks@), x),
        decreases 255 - id,
    {
        let ghost v = roster_view(pucks@);
        let mut i: usize = 0;
        let mut taken: bool = false;
        while i < pucks.len()
            invariant
                i <= pucks.len(),
                v == roster_view(pucks@),
                taken ==> id_taken(v, id),
                !taken ==> forall|k: int| 0 <= k < i ==> (#[trigger] v[k]).id != Some(id),
            decreases pucks.len() - i,
        {
            let hit = match pucks[i].id {
                Some(x) => x == id,
                None => false,
            };
            if hit {
                taken = true;
                proof {
                    assert(v[i as int].id == Some(id));
                }
            } else {
                proof {
                    assert(v[i as int].id != Some(id));
                }
            }
            i = i + 1;
        }
        if !taken {
            return Some(id);
        }
        if id == 255 {
            return None;
        }
        id = id + 1;
    }
}

/// A solved LOCAL to world transform of one puck, as it is stored.
#[derive(Debug, Clone, Copy, PartialEq, Eq)]
pub struct BridgeEntry {
    pub yaw_deg: Single,
    pub t: [Single; 3],
    pub yaw_spread_deg: Single,
    pub unix_time: u64,
}

/// Which bridge places which role: each puck's own, under its role. A puck
/// without a bridge, or with an unknown role, is not placed: an unaligned pose
/// in an aligned stream is worse than a missing one. Of two pucks with one role
/// the later counts.
pub open spec fn placed(pucks: Seq<PuckView>, bridges: Map<Seq<char>, BridgeEntry>) -> Map<
    u8,
    BridgeEntry,
>
    decreases pucks.len(),
{
    if pucks.len() == 0 {
        Map::empty()
    } else {
        let before = placed(pucks.drop_last(), bridges);
        let p = pucks.last();
        if p.device < crate::mpt1::MAX_DEVICES && bridges.contains_key(p.ip) {
            before.insert(p.device, bridges[p.ip])
        } else {
            before
        }
    }
}

/// Which bridge places which role, by role id. There is no other term: the
/// pucks share one map, so their world frames coincide.
///
/// The roster is handed in, so that a role change applies without a restart:
/// with a stale one the output is keyed by the old slot and the puck vanishes.
pub fn build_transforms_for(pucks: &[PuckCfg], bridges: &Book<BridgeEntry>) -> (r: BTreeMap<
    u8,
    BridgeEntry,
>)
    requires
        bridges.wf(),
    ensures
        r@ == placed(roster_view(pucks@), bridges@),
{
    let mut out: BTreeMap<u8, BridgeEntry> = BTreeMap::new();
    let mut i: usize = 0;
    proof {
        assert(roster_view(pucks@).take(0) =~= Seq::<PuckView>::empty());
    }
    while i < pucks.len()
        invariant
            i <= pucks.len(),
            bridges.wf(),
            out@ == placed(roster_view(pucks@).take(i as int), bridges@),
        decreases pucks.len() - i,
    {
        proof {
            let s = roster_view(pucks@);
            assert(s.take(i + 1).drop_last() =~= s.take(i as int));
            assert(s.take(i + 1).last() == pucks@[i as int]@);
        }
        if let Some(device) = Device::from_u8(pucks[i].device) {
            if let Some(b) = bridges.get(pucks[i].ip.as_str()) {
                out.insert(device.id(), *b);
            }
        }
        i = i + 1;
    }
    proof {
        assert(roster_view(pucks@).take(pucks@.len() as int) =~= roster_view(pucks@));
    }
    out
}

/// A role is placed only by a puck of the roster that has it and a bridge.
pub proof fn only_bridged_pucks_are_placed(
    pucks: Seq<PuckView>,
    bridges: Map<Seq<char>, BridgeEntry>,
    device: u8,
)
    ensures
        placed(pucks, bridges).contains_key(device) ==> exists|i: int|
            0 <= i < pucks.len() && (#[trigger] pucks[i]).device == device && bridges.contains_key(
                pucks[i].ip,
            ) && bridges[pucks[i].ip] == placed(pucks, bridges)[device],
        placed(pucks, bridges).contains_key(device) ==> device < crate::mpt1::MAX_DEVICES,
        (exists|i: int|
            0 <= i < pucks.len() && (#[trigger] pucks[i]).device == device && device
                < crate::mpt1::MAX_DEVICES && bridges.contains_key(pucks[i].ip)) ==> placed(
            pucks,
            bridges,
        ).contains_key(device),
    decreases pucks.len(),
{
    if pucks.len() > 0 {
        let front = pucks.drop_last();
        only_bridged_pucks_are_placed(front, bridges, device);
        let last = pucks[pucks.len() - 1];
        if placed(pucks, bridges).contains_key(device) {
            if last.device == device && device < crate::mpt1::MAX_DEVICES && bridges.contains_key(
                last.ip,
            ) {
                assert(pucks[pucks.len() - 1].device == device);
            } else {
                let i = choose|i: int|
                    0 <= i < front.len() && (#[trigger] front[i]).device == device
                        && bridges.contains_key(front[i].ip) && bridges[front[i].ip] == placed(
                        front,
                        bridges,
                    )[device];
                assert(pucks[i] == front[i]);
            }
        }
        if exists|i: int|
            0 <= i < pucks.len() && (#[trigger] pucks[i]).device == device && device
                < crate::mpt1::MAX_DEVICES && bridges.contains_key(pucks[i].ip) {
            let i = choose|i: int|
                0 <= i < pucks.len() && (#[trigger] pucks[i]).device == device && device
                    < crate::mpt1::MAX_DEVICES && bridges.contains_key(pucks[i].ip);
            if i < front.len() {
                assert(front[i] == pucks[i]);
            }
        }
    }
}

/// A source byte resolves to the role of the puck that stamps it; of two that stamp
/// it, to the later one's.
pub proof fn a_source_resolves_to_its_pucks_role(pucks: Seq<PuckView>, k: int)
    requires
        0 <= k < pucks.len(),
        pucks[k].device < 11,
        forall|i: int|
            k < i < pucks.len() && (#[trigger] pucks[i]).stamp() == pucks[k].stamp()
                ==> pucks[i].device >= 11,
    ensures
        role_map(pucks).contains_key(pucks[k].stamp()),
        role_map(pucks)[pucks[k].stamp()].code() == pucks[k].device,
    decreases pucks.len(),
{
    let front = pucks.drop_last();
    let last = pucks[pucks.len() - 1];
    assert(pucks.last() == last);
    if k < front.len() {
        assert(front[k] == pucks[k]);
        assert forall|i: int|
            k < i < front.len() && (#[trigger] front[i]).stamp() == front[k].stamp() implies front[i].device
            >= 11 by {
            assert(front[i] == pucks[i]);
        }
        a_source_resolves_to_its_pucks_role(front, k);
        if last.stamp() == pucks[k].stamp() {
            assert(last.device >= 11);
        }
    } else if let Some(role) = Device::coded(last.device) {
        crate::mpt1::every_role_keeps_its_id(role, last.device);
    }
}

/// A number is entered exactly where the document lists pucks, no puck at another
/// address has it, and the puck is listed; each refusal has its own reason.
pub proof fn a_number_is_refused_for_its_reason(
    root: Json,
    ip: Seq<char>,
    key: Seq<char>,
    n: u8,
)
    ensures
        match entered(root, ip, key, n) {
            Err(RefusalView::NoPucks) => pucks_of(root) is None,
            Err(RefusalView::Taken(other)) => pucks_of(root) is Some && exists|i: int|
                0 <= i < pucks_of(root)->0.len() && entry_ip(#[trigger] pucks_of(root)->0[i])
                    == other && other != ip && holds_number(pucks_of(root)->0[i], key, n),
            Err(RefusalView::UnknownPuck) => pucks_of(root) is Some && (forall|i: int|
                0 <= i < pucks_of(root)->0.len() ==> !is_puck(#[trigger] pucks_of(root)->0[i], ip)),
            Ok(_) => pucks_of(root) is Some && (exists|i: int|
                0 <= i < pucks_of(root)->0.len() && is_puck(#[trigger] pucks_of(root)->0[i], ip)) && (
            forall|i: int|
                0 <= i < pucks_of(root)->0.len() && entry_ip(#[trigger] pucks_of(root)->0[i]) != ip
                    ==> !holds_number(pucks_of(root)->0[i], key, n)),
        },
{
    if let Some(pucks) = pucks_of(root) {
        lemma_holder_at(pucks, ip, key, n, 0);
        lemma_puck_at(pucks, ip, 0);
        if let Some(k) = holder_at(pucks, ip, key, n, 0) {
            assert(entry_ip(pucks[k as int]) != ip);
        }
        if let Some(k) = puck_at(pucks, ip, 0) {
            assert(is_puck(pucks[k as int], ip));
        }
    }
}

/// The port of an address is the number behind its last colon; where that is no port,
/// it is the port that pucks send to.
pub proof fn the_port_stands_behind_the_colon(host: Seq<char>, port: nat)
    ensures
        port_of(host + ":"@ + text::decimal_of(port)) == if port <= 65535 {
            port as u16
        } else {
            5180u16
        },
{
    reveal_strlit(":");
    let tail = text::decimal_of(port);
    let s = host + ":"@ + tail;
    let at = host.len() as int;
    text::a_written_number_reads_back(port, 0, 65535);
    text::the_last_place_is_found(s, ":"@, s.len() - ":"@.len());
    assert(s.subrange(at, at + 1) =~= ":"@);
    assert(text::stands_at(s, ":"@, at));
    assert forall|k: int| at < k <= s.len() - 1 implies !text::stands_at(s, ":"@, k) by {
        if text::stands_at(s, ":"@, k) {
            assert(s.subrange(k, k + 1)[0] == ":"@[0]);
            assert(s[k] == tail[k - at - 1]);
            assert(text::is_digit(tail[k - at - 1]));
        }
    }
    assert(text::last_at(s, ":"@, s.len() - ":"@.len()) == Some(at));
    assert(s.skip(at + 1) =~= tail);
}

} // verus!
