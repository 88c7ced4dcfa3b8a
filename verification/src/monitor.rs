//! What the stream itself gives away.
//!
//! Beside forwarding poses, the aggregate loop watches for the events that
//! invalidate a bridge: a puck that rebooted, one that came back after a gap, and
//! a pose that moved faster than any human wears it. It also counts packets and
//! says when the status is to be published.

use crate::config::{PuckCfg, PuckView};
use crate::ieee::Single;
use crate::ingest::{Sample, SlotState};
use crate::jobs::since;
use crate::mpt1::Device;
use std::collections::BTreeMap;
use vstd::prelude::*;

verus! {

broadcast use vstd::std_specs::btree::group_btree_axioms;

/// A boot clock that falls behind by more than this, in nanoseconds, is another
/// boot's.
pub const HOUR: u64 = 3_600_000_000_000;

/// 0.004 s: readings closer together say nothing about speed.
pub const TELEPORT_MIN_DT: u32 = 0x3B83_126F;

/// 0.15 s: readings further apart say nothing about speed.
pub const TELEPORT_MAX_DT: u32 = 0x3E19_999A;

/// 0.15 m.
pub const TELEPORT_MIN_DIST: u32 = 0x3E19_999A;

/// 10.0 m/s implied between consecutive samples.
pub const TELEPORT_SPEED: u32 = 0x4120_0000;

/// The status is published every 250 ms.
pub const PUBLISH_EVERY: u64 = 250_000_000;

/// Packet rates are taken over a second.
pub const RATE_WINDOW: u64 = 1_000_000_000;

pub struct Monitor {
    /// The stamp last counted, per source.
    pub last_t: BTreeMap<u8, u64>,
    /// Packets counted in the window, per source.
    pub counts: BTreeMap<u8, u32>,
    /// The stamp and position last seen, per source.
    pub last_pose: BTreeMap<u8, (u64, [Single; 3])>,
    /// Whether a slot was live when last looked at.
    pub live_state: BTreeMap<u8, bool>,
    /// The address of the puck with each role id.
    pub ip_of: BTreeMap<u8, String>,
    /// The address of the puck that stamps each byte.
    pub ip_from: BTreeMap<u8, String>,
    /// When the rate window began.
    pub window: u64,
    /// The roster last read.
    pub roster_seen: Option<u64>,
}

/// The addresses of a map.
pub open spec fn addresses(m: Map<u8, String>) -> Map<u8, Seq<char>> {
    m.map_values(|s: String| s@)
}

/// The address of the puck with each role id; of two pucks with one id the later
/// counts.
pub open spec fn address_map(pucks: Seq<PuckView>) -> Map<u8, Seq<char>>
    decreases pucks.len(),
{
    if pucks.len() == 0 {
        Map::empty()
    } else {
        address_map(pucks.drop_last()).insert(pucks.last().device, pucks.last().ip)
    }
}

/// The address of the puck that stamps each byte; of two pucks that stamp one byte
/// the later counts.
pub open spec fn source_map(pucks: Seq<PuckView>) -> Map<u8, Seq<char>>
    decreases pucks.len(),
{
    if pucks.len() == 0 {
        Map::empty()
    } else {
        source_map(pucks.drop_last()).insert(pucks.last().stamp(), pucks.last().ip)
    }
}

/// The characters of a list of texts.
pub open spec fn texts(s: Seq<String>) -> Seq<Seq<char>> {
    s.map_values(|x: String| x@)
}

/// What counting remembers: the stamp last counted and the count, per source.
pub open spec fn counting(
    last: Map<u8, u64>,
    counts: Map<u8, u32>,
    live: Seq<Sample>,
    n: nat,
) -> (Map<u8, u64>, Map<u8, u32>)
    decreases n,
{
    if n == 0 {
        (last, counts)
    } else {
        let (l, c) = counting(last, counts, live, (n - 1) as nat);
        let p = live[n - 1].packet;
        if l.contains_key(p.src) && l[p.src] == p.t_ns {
            (l, c)
        } else {
            let so_far = if c.contains_key(p.src) {
                c[p.src]
            } else {
                0
            };
            (
                l.insert(p.src, p.t_ns),
                c.insert(p.src, ((so_far as int + 1) % 0x1_0000_0000) as u32),
            )
        }
    }
}

/// A sample's boot clock is hours behind the one before it.
pub open spec fn rebooted(
    last_pose: Map<u8, (u64, [Single; 3])>,
    ip_from: Map<u8, Seq<char>>,
    s: Sample,
) -> bool {
    last_pose.contains_key(s.packet.src) && s.packet.t_ns + HOUR < last_pose[s.packet.src].0
        && ip_from.contains_key(s.packet.src)
}

/// What a list of sources with addresses says.
pub open spec fn sourced(s: Seq<(u8, String)>) -> Seq<(u8, Seq<char>)> {
    s.map_values(|x: (u8, String)| (x.0, x.1@))
}

/// What looking for reboots over the first `n` samples leaves of the positions,
/// and the sources and addresses of the pucks that rebooted.
pub open spec fn rebooting(
    last_pose: Map<u8, (u64, [Single; 3])>,
    ip_from: Map<u8, Seq<char>>,
    live: Seq<Sample>,
    n: nat,
) -> (Map<u8, (u64, [Single; 3])>, Seq<(u8, Seq<char>)>)
    decreases n,
{
    if n == 0 {
        (last_pose, Seq::empty())
    } else {
        let (l, out) = rebooting(last_pose, ip_from, live, (n - 1) as nat);
        let s = live[n - 1];
        if rebooted(l, ip_from, s) {
            (l.remove(s.packet.src), out.push((s.packet.src, ip_from[s.packet.src])))
        } else {
            (l, out)
        }
    }
}

/// What looking for returns over the first `n` slots makes of the states, and
/// the addresses of the pucks that came back.
pub open spec fn returning(
    live_state: Map<u8, bool>,
    ip_of: Map<u8, Seq<char>>,
    slots: Seq<(Device, SlotState)>,
    n: nat,
) -> (Map<u8, bool>, Seq<Seq<char>>)
    decreases n,
{
    if n == 0 {
        (live_state, Seq::empty())
    } else {
        let (m, out) = returning(live_state, ip_of, slots, (n - 1) as nat);
        let id = slots[n - 1].0.code();
        let live = slots[n - 1].1 is Live;
        (
            m.insert(id, live),
            if live && m.contains_key(id) && !m[id] && ip_of.contains_key(id) {
                out.push(ip_of[id])
            } else {
                out
            },
        )
    }
}

/// A pose jumped faster than a human moves: a frame event, not motion. `dt` is
/// the time between the two samples in seconds, `dist` the distance in metres
/// and `speed` their quotient.
pub open spec fn teleported(dt: Single, dist: Single, speed: Single) -> bool {
    dt.exceeds(TELEPORT_MIN_DT) && dt.undercuts(TELEPORT_MAX_DT) && dist.exceeds(TELEPORT_MIN_DIST)
        && speed.exceeds(TELEPORT_SPEED)
}

/// What is to be published at that time, in a window that began at `window`.
pub open spec fn publish_step(window: u64, now: u64) -> Publish {
    if since(window, now) >= RATE_WINDOW {
        Publish::Roll
    } else if since(window, now) >= PUBLISH_EVERY {
        Publish::Keep
    } else {
        Publish::Wait
    }
}

/// What is to be published now.
#[derive(Debug, Clone, Copy, PartialEq, Eq, Structural)]
pub enum Publish {
    /// Nothing yet.
    Wait,
    /// The status, with the rates published before.
    Keep,
    /// The status, with the rates of the window that ends now.
    Roll,
}

/// The sources heard from that have a role, with it, and those that have none.
pub open spec fn by_role(
    roles: Map<u8, Device>,
    heard: Seq<(u8, SlotState, Option<Sample>)>,
    n: nat,
) -> (Seq<(Device, SlotState, u8, Option<Sample>)>, Seq<u8>)
    decreases n,
{
    if n == 0 {
        (Seq::empty(), Seq::empty())
    } else {
        let (slots, unknown) = by_role(roles, heard, (n - 1) as nat);
        let (src, st, s) = heard[n - 1];
        if roles.contains_key(src) {
            (slots.push((roles[src], st, src, s)), unknown)
        } else {
            (slots, unknown.push(src))
        }
    }
}

/// Report by role, which is what the operator assigned, but list the sources
/// without a role too: an unprovisioned or misconfigured puck should be visible
/// rather than merely absent.
pub fn sort_sources(
    roles: &BTreeMap<u8, Device>,
    heard: &Vec<(u8, SlotState, Option<Sample>)>,
) -> (r: (Vec<(Device, SlotState, u8, Option<Sample>)>, Vec<u8>))
    ensures
        (r.0@, r.1@) == by_role(roles@, heard@, heard@.len()),
{
    let mut slots: Vec<(Device, SlotState, u8, Option<Sample>)> = Vec::new();
    let mut unknown: Vec<u8> = Vec::new();
    let mut i: usize = 0;
    while i < heard.len()
        invariant
            i <= heard.len(),
            (slots@, unknown@) == by_role(roles@, heard@, i as nat),
        decreases heard.len() - i,
    {
        let (src, st, s) = heard[i];
        match roles.get(&src) {
            Some(role) => {
                slots.push((*role, st, src, s));
            },
            None => {
                unknown.push(src);
            },
        }
        i = i + 1;
    }
    (slots, unknown)
}

/// Every source heard from shows up exactly once: under its role, or as unknown.
pub proof fn no_source_is_dropped(
    roles: Map<u8, Device>,
    heard: Seq<(u8, SlotState, Option<Sample>)>,
    n: nat,
)
    requires
        n <= heard.len(),
    ensures
        by_role(roles, heard, n).0.len() + by_role(roles, heard, n).1.len() == n,
        forall|i: int|
            0 <= i < n ==> {
                let h = #[trigger] heard[i];
                if roles.contains_key(h.0) {
                    by_role(roles, heard, n).0.contains((roles[h.0], h.1, h.0, h.2))
                } else {
                    by_role(roles, heard, n).1.contains(h.0)
                }
            },
    decreases n,
{
    if n > 0 {
        let prev = (n - 1) as nat;
        no_source_is_dropped(roles, heard, prev);
        let (a, b) = by_role(roles, heard, prev);
        let (c, d) = by_role(roles, heard, n);
        assert forall|i: int| 0 <= i < n implies {
            let h = #[trigger] heard[i];
            if roles.contains_key(h.0) {
                c.contains((roles[h.0], h.1, h.0, h.2))
            } else {
                d.contains(h.0)
            }
        } by {
            let h = heard[i];
            if roles.contains_key(h.0) {
                let x = (roles[h.0], h.1, h.0, h.2);
                if i < n - 1 {
                    let k = choose|k: int| 0 <= k < a.len() && a[k] == x;
                    assert(c[k] == x);
                } else {
                    assert(c[a.len() as int] == x);
                }
            } else {
                if i < n - 1 {
                    let k = choose|k: int| 0 <= k < b.len() && b[k] == h.0;
                    assert(d[k] == h.0);
                } else {
                    assert(d[b.len() as int] == h.0);
                }
            }
        }
    }
}

impl Monitor {
    /// Nothing seen yet; the first rate window begins now.
    pub fn new(now: u64) -> (r: Monitor)
        ensures
            r.last_t@ == Map::<u8, u64>::empty(),
            r.counts@ == Map::<u8, u32>::empty(),
            r.last_pose@ == Map::<u8, (u64, [Single; 3])>::empty(),
            r.live_state@ == Map::<u8, bool>::empty(),
            addresses(r.ip_of@) == Map::<u8, Seq<char>>::empty(),
            addresses(r.ip_from@) == Map::<u8, Seq<char>>::empty(),
            r.window == now,
            r.roster_seen is None,
    {
        let m = Monitor {
            last_t: BTreeMap::new(),
            counts: BTreeMap::new(),
            last_pose: BTreeMap::new(),
            live_state: BTreeMap::new(),
            ip_of: BTreeMap::new(),
            ip_from: BTreeMap::new(),
            window: now,
            roster_seen: None,
        };
        proof {
            assert(addresses(m.ip_of@) =~= Map::<u8, Seq<char>>::empty());
            assert(addresses(m.ip_from@) =~= Map::<u8, Seq<char>>::empty());
        }
        m
    }

    /// Whether the roster is to be read again: it changed, or a rebuild was asked
    /// for. A stale roster would key the output by the old slot and the puck
    /// would vanish silently.
    pub fn roster_due(&mut self, generation: u64, rebuild: bool) -> (r: bool)
        ensures
            r == (old(self).roster_seen != Some(generation) || rebuild),
            *final(self) == (Monitor {
                roster_seen: if r {
                    Some(generation)
                } else {
                    old(self).roster_seen
                },
                ..*old(self)
            }),
    {
        let same = match self.roster_seen {
            Some(g) => g == generation,
            None => false,
        };
        if !same || rebuild {
            self.roster_seen = Some(generation);
            true
        } else {
            false
        }
    }

    /// Take a new roster over. Any transform change moves everything, so the
    /// positions seen before say nothing any more.
    pub fn take_roster(&mut self, pucks: &[PuckCfg])
        ensures
            addresses(final(self).ip_of@) == address_map(crate::config::roster_view(pucks@)),
            addresses(final(self).ip_from@) == source_map(crate::config::roster_view(pucks@)),
            final(self).last_pose@ == Map::<u8, (u64, [Single; 3])>::empty(),
            final(self).last_t == old(self).last_t,
            final(self).counts == old(self).counts,
            final(self).live_state == old(self).live_state,
            final(self).window == old(self).window,
            final(self).roster_seen == old(self).roster_seen,
    {
        let ghost all = crate::config::roster_view(pucks@);
        let mut ip_of: BTreeMap<u8, String> = BTreeMap::new();
        let mut ip_from: BTreeMap<u8, String> = BTreeMap::new();
        let mut i: usize = 0;
        proof {
            assert(all.take(0) =~= Seq::<PuckView>::empty());
            assert(addresses(ip_of@) =~= Map::<u8, Seq<char>>::empty());
            assert(addresses(ip_from@) =~= Map::<u8, Seq<char>>::empty());
        }
        while i < pucks.len()
            invariant
                i <= pucks.len(),
                all == crate::config::roster_view(pucks@),
                addresses(ip_of@) == address_map(all.take(i as int)),
                addresses(ip_from@) == source_map(all.take(i as int)),
            decreases pucks.len() - i,
        {
            let ghost before = ip_of@;
            let ghost sources = ip_from@;
            proof {
                assert(all.take(i + 1).drop_last() =~= all.take(i as int));
                assert(all.take(i + 1).last() == pucks@[i as int]@);
            }
            ip_of.insert(pucks[i].device, pucks[i].ip.clone());
            ip_from.insert(pucks[i].source(), pucks[i].ip.clone());
            proof {
                assert(addresses(ip_of@) =~= addresses(before).insert(
                    pucks@[i as int].device,
                    pucks@[i as int].ip@,
                ));
                assert(addresses(ip_from@) =~= addresses(sources).insert(
                    pucks@[i as int]@.stamp(),
                    pucks@[i as int].ip@,
                ));
            }
            i = i + 1;
        }
        proof {
            assert(all.take(all.len() as int) =~= all);
        }
        self.ip_of = ip_of;
        self.ip_from = ip_from;
        self.last_pose = BTreeMap::new();
    }

    /// Count the live samples that were not counted before.
    pub fn count(&mut self, live: &Vec<Sample>)
        ensures
            (final(self).last_t@, final(self).counts@) == counting(
                old(self).last_t@,
                old(self).counts@,
                live@,
                live@.len(),
            ),
            final(self).last_pose == old(self).last_pose,
            final(self).live_state == old(self).live_state,
            final(self).ip_of == old(self).ip_of,
            final(self).ip_from == old(self).ip_from,
            final(self).window == old(self).window,
            final(self).roster_seen == old(self).roster_seen,
    {
        let ghost (l0, c0) = (self.last_t@, self.counts@);
        let mut i: usize = 0;
        while i < live.len()
            invariant
                i <= live.len(),
                (self.last_t@, self.counts@) == counting(l0, c0, live@, i as nat),
                self.last_pose == old(self).last_pose,
                self.live_state == old(self).live_state,
                self.ip_of == old(self).ip_of,
                self.ip_from == old(self).ip_from,
                self.window == old(self).window,
                self.roster_seen == old(self).roster_seen,
            decreases live.len() - i,
        {
            let p = live[i].packet;
            let seen = match self.last_t.get(&p.src) {
                Some(t) => *t == p.t_ns,
                None => false,
            };
            if !seen {
                let so_far: u32 = match self.counts.get(&p.src) {
                    Some(c) => *c,
                    None => 0,
                };
                let next: u32 = if so_far == u32::MAX {
                    0
                } else {
                    so_far + 1
                };
                self.last_t.insert(p.src, p.t_ns);
                self.counts.insert(p.src, next);
            }
            i = i + 1;
        }
    }

    /// The sources and addresses of the pucks that rebooted: the stamp is the
    /// device's boot clock, so a fresh boot sends stamps hours behind the ones before it. A
    /// reboot resets the tracker's LOCAL frame, which is what the bridge
    /// describes.
    pub fn reboots(&mut self, live: &Vec<Sample>) -> (r: Vec<(u8, String)>)
        ensures
            (final(self).last_pose@, sourced(r@)) == rebooting(
                old(self).last_pose@,
                addresses(old(self).ip_from@),
                live@,
                live@.len(),
            ),
            final(self).last_t == old(self).last_t,
            final(self).counts == old(self).counts,
            final(self).live_state == old(self).live_state,
            final(self).ip_of == old(self).ip_of,
            final(self).ip_from == old(self).ip_from,
            final(self).window == old(self).window,
            final(self).roster_seen == old(self).roster_seen,
    {
        let ghost p0 = self.last_pose@;
        let ghost ips = addresses(self.ip_from@);
        let mut out: Vec<(u8, String)> = Vec::new();
        let mut i: usize = 0;
        proof {
            assert(sourced(out@) =~= Seq::<(u8, Seq<char>)>::empty());
        }
        while i < live.len()
            invariant
                i <= live.len(),
                (self.last_pose@, sourced(out@)) == rebooting(p0, ips, live@, i as nat),
                ips == addresses(self.ip_from@),
                self.last_t == old(self).last_t,
                self.counts == old(self).counts,
                self.live_state == old(self).live_state,
                self.ip_of == old(self).ip_of,
                self.ip_from == old(self).ip_from,
                self.window == old(self).window,
                self.roster_seen == old(self).roster_seen,
            decreases live.len() - i,
        {
            let s = live[i];
            let d: u8 = s.packet.src;
            let behind = match self.last_pose.get(&d) {
                Some(prev) => prev.0 > HOUR && s.packet.t_ns < prev.0 - HOUR,
                None => false,
            };
            if behind {
                let ip = match self.ip_from.get(&d) {
                    Some(ip) => Some(ip.clone()),
                    None => None,
                };
                if let Some(ip) = ip {
                    let ghost before = sourced(out@);
                    self.last_pose.remove(&d);
                    out.push((d, ip));
                    proof {
                        assert(sourced(out@) =~= before.push((d, ip@)));
                    }
                }
            }
            i = i + 1;
        }
        out
    }

    /// The addresses of the pucks that are live again after a gap: one may have
    /// relocalized into a moved frame.
    pub fn returned(&mut self, slots: &Vec<(Device, SlotState)>) -> (r: Vec<String>)
        ensures
            (final(self).live_state@, texts(r@)) == returning(
                old(self).live_state@,
                addresses(old(self).ip_of@),
                slots@,
                slots@.len(),
            ),
            final(self).last_t == old(self).last_t,
            final(self).counts == old(self).counts,
            final(self).last_pose == old(self).last_pose,
            final(self).ip_of == old(self).ip_of,
            final(self).ip_from == old(self).ip_from,
            final(self).window == old(self).window,
            final(self).roster_seen == old(self).roster_seen,
    {
        let ghost m0 = self.live_state@;
        let ghost ips = addresses(self.ip_of@);
        let mut out: Vec<String> = Vec::new();
        let mut i: usize = 0;
        proof {
            assert(texts(out@) =~= Seq::<Seq<char>>::empty());
        }
        while i < slots.len()
            invariant
                i <= slots.len(),
                (self.live_state@, texts(out@)) == returning(m0, ips, slots@, i as nat),
                ips == addresses(self.ip_of@),
                self.last_t == old(self).last_t,
                self.counts == old(self).counts,
                self.last_pose == old(self).last_pose,
                self.ip_of == old(self).ip_of,
                self.ip_from == old(self).ip_from,
                self.window == old(self).window,
                self.roster_seen == old(self).roster_seen,
            decreases slots.len() - i,
        {
            let (device, st) = slots[i];
            let id: u8 = device.id();
            let live = st == SlotState::Live;
            let was = self.live_state.insert(id, live);
            let back = match was {
                Some(w) => live && !w,
                None => false,
            };
            if back {
                if let Some(ip) = self.ip_of.get(&id) {
                    let ghost before = texts(out@);
                    out.push(ip.clone());
                    proof {
                        assert(texts(out@) =~= before.push(ip@));
                    }
                }
            }
            i = i + 1;
        }
        out
    }

    /// The stamp and position seen before from a source.
    pub fn previous(&self, src: u8) -> (r: Option<(u64, [Single; 3])>)
        ensures
            r == (if self.last_pose@.contains_key(src) {
                Some(self.last_pose@[src])
            } else {
                None
            }),
    {
        match self.last_pose.get(&src) {
            Some(p) => Some(*p),
            None => None,
        }
    }

    /// Take a live sample in, given how it relates to the one before it from the
    /// same source, where there is one: the address of the puck whose bridge is to
    /// be verified, if the pose jumped.
    pub fn teleport(&mut self, s: &Sample, dt: Single, dist: Single, speed: Single) -> (r: Option<
        String,
    >)
        ensures
            final(self).last_pose@ == old(self).last_pose@.insert(
                s.packet.src,
                (s.packet.t_ns, s.packet.pose.p),
            ),
            match r {
                Some(ip) => old(self).last_pose@.contains_key(s.packet.src) && teleported(
                    dt,
                    dist,
                    speed,
                ) && addresses(old(self).ip_from@).contains_key(s.packet.src) && ip@ == addresses(
                    old(self).ip_from@,
                )[s.packet.src],
                None => !(old(self).last_pose@.contains_key(s.packet.src) && teleported(
                    dt,
                    dist,
                    speed,
                ) && addresses(old(self).ip_from@).contains_key(s.packet.src)),
            },
            final(self).last_t == old(self).last_t,
            final(self).counts == old(self).counts,
            final(self).live_state == old(self).live_state,
            final(self).ip_of == old(self).ip_of,
            final(self).ip_from == old(self).ip_from,
            final(self).window == old(self).window,
            final(self).roster_seen == old(self).roster_seen,
    {
        let src: u8 = s.packet.src;
        let known = self.last_pose.contains_key(&src);
        let jumped = known && dt.above(TELEPORT_MIN_DT) && dt.below(TELEPORT_MAX_DT) && dist.above(
            TELEPORT_MIN_DIST,
        ) && speed.above(TELEPORT_SPEED);
        let found = if jumped {
            match self.ip_from.get(&src) {
                Some(ip) => Some(ip.clone()),
                None => None,
            }
        } else {
            None
        };
        self.last_pose.insert(src, (s.packet.t_ns, s.packet.pose.p));
        found
    }

    /// What is to be published now.
    pub fn publish(&self, now: u64) -> (r: Publish)
        ensures
            r == publish_step(self.window, now),
    {
        let el: u64 = now.saturating_sub(self.window);
        if el >= RATE_WINDOW {
            Publish::Roll
        } else if el >= PUBLISH_EVERY {
            Publish::Keep
        } else {
            Publish::Wait
        }
    }

    /// The packets counted in the window, per source in order. The next window
    /// begins now.
    pub fn roll(&mut self, now: u64) -> (r: Vec<(u8, u32)>)
        ensures
            r@ == counts_below(old(self).counts@, 256),
            final(self).counts@ == Map::<u8, u32>::empty(),
            final(self).window == now,
            final(self).last_t == old(self).last_t,
            final(self).last_pose == old(self).last_pose,
            final(self).live_state == old(self).live_state,
            final(self).ip_of == old(self).ip_of,
            final(self).ip_from == old(self).ip_from,
            final(self).roster_seen == old(self).roster_seen,
    {
        let mut out: Vec<(u8, u32)> = Vec::new();
        let mut k: u16 = 0;
        while k < 256
            invariant
                k <= 256,
                out@ == counts_below(self.counts@, k as nat),
                *self == *old(self),
            decreases 256 - k,
        {
            let src: u8 = k as u8;
            if let Some(c) = self.counts.get(&src) {
                out.push((src, *c));
            }
            k = k + 1;
        }
        self.counts = BTreeMap::new();
        self.window = now;
        out
    }
}

/// The counts of the sources below `bound`, in order.
pub open spec fn counts_below(counts: Map<u8, u32>, bound: nat) -> Seq<(u8, u32)>
    decreases bound,
{
    if bound == 0 {
        Seq::empty()
    } else {
        let before = counts_below(counts, (bound - 1) as nat);
        let src = (bound - 1) as u8;
        if counts.contains_key(src) {
            before.push((src, counts[src]))
        } else {
            before
        }
    }
}

/// A stamp that moved on, or fell back by no more than an hour, is no reboot; one
/// that fell back by more is.
pub proof fn only_a_regressed_clock_is_a_reboot(
    last_pose: Map<u8, (u64, [Single; 3])>,
    ip_from: Map<u8, Seq<char>>,
    s: Sample,
)
    requires
        last_pose.contains_key(s.packet.src),
        ip_from.contains_key(s.packet.src),
    ensures
        rebooted(last_pose, ip_from, s) <==> last_pose[s.packet.src].0 - s.packet.t_ns > HOUR,
{
}

/// A puck is found by the byte it stamps, whether that is its role or an id of its
/// own, unless a later one stamps the same.
pub proof fn a_puck_is_found_by_its_stamp(pucks: Seq<PuckView>, k: int)
    requires
        0 <= k < pucks.len(),
        forall|i: int| k < i < pucks.len() ==> (#[trigger] pucks[i]).stamp() != pucks[k].stamp(),
    ensures
        source_map(pucks).contains_key(pucks[k].stamp()),
        source_map(pucks)[pucks[k].stamp()] == pucks[k].ip,
    decreases pucks.len(),
{
    let rest = pucks.drop_last();
    if k < rest.len() {
        assert(rest[k] == pucks[k]);
        assert(pucks.last() == pucks[pucks.len() - 1]);
        assert forall|i: int| k < i < rest.len() implies (#[trigger] rest[i]).stamp()
            != rest[k].stamp() by {
            assert(rest[i] == pucks[i]);
        }
        a_puck_is_found_by_its_stamp(rest, k);
    }
}

/// A sample is counted once, however often it is seen: a sample whose stamp differs
/// from the last one counted of its source adds one to that source's count, and any
/// other sample adds nothing. No other source's count changes.
pub proof fn a_sample_is_counted_once(
    last: Map<u8, u64>,
    counts: Map<u8, u32>,
    live: Seq<Sample>,
    n: nat,
    src: u8,
)
    requires
        0 < n <= live.len(),
    ensures
        ({
            let (l0, c0) = counting(last, counts, live, (n - 1) as nat);
            let (l1, c1) = counting(last, counts, live, n);
            let p = live[n - 1].packet;
            let had = |c: Map<u8, u32>|
                if c.contains_key(src) {
                    c[src] as int
                } else {
                    0
                };
            let new = p.src == src && !(l0.contains_key(src) && l0[src] == p.t_ns);
            &&& new ==> had(c1) == (had(c0) + 1) % 0x1_0000_0000
            &&& !new ==> had(c1) == had(c0) && c1.contains_key(src) == c0.contains_key(src)
            &&& p.src == src ==> l1.contains_key(src) && l1[src] == p.t_ns
            &&& p.src != src ==> l1.contains_key(src) == l0.contains_key(src) && l1[src] == l0[src]
        }),
{
}

/// Seeing the same samples again counts nothing, where each is of a source of its
/// own.
pub proof fn samples_seen_again_are_not_counted(
    last: Map<u8, u64>,
    counts: Map<u8, u32>,
    live: Seq<Sample>,
    n: nat,
)
    requires
        n <= live.len(),
        forall|i: int, k: int|
            0 <= i < k < live.len() ==> (#[trigger] live[i]).packet.src != (
            #[trigger] live[k]).packet.src,
    ensures
        ({
            let (l, c) = counting(last, counts, live, live.len());
            counting(l, c, live, n) == (l, c)
        }),
    decreases n,
{
    if n > 0 {
        samples_seen_again_are_not_counted(last, counts, live, (n - 1) as nat);
        lemma_counted(last, counts, live, live.len(), n - 1);
    }
}

proof fn lemma_counted(
    last: Map<u8, u64>,
    counts: Map<u8, u32>,
    live: Seq<Sample>,
    n: nat,
    i: int,
)
    requires
        0 <= i < n <= live.len(),
        forall|a: int, b: int|
            0 <= a < b < live.len() ==> (#[trigger] live[a]).packet.src != (
            #[trigger] live[b]).packet.src,
    ensures
        ({
            let l = counting(last, counts, live, n).0;
            l.contains_key(live[i].packet.src) && l[live[i].packet.src] == live[i].packet.t_ns
        }),
    decreases n,
{
    if i < n - 1 {
        lemma_counted(last, counts, live, (n - 1) as nat, i);
        assert(live[i].packet.src != live[n - 1].packet.src);
    }
}

proof fn lemma_rebooting(
    last_pose: Map<u8, (u64, [Single; 3])>,
    ip_from: Map<u8, Seq<char>>,
    live: Seq<Sample>,
    n: nat,
)
    requires
        n <= live.len(),
        forall|a: int, b: int|
            0 <= a < b < live.len() ==> (#[trigger] live[a]).packet.src != (
            #[trigger] live[b]).packet.src,
    ensures
        ({
            let (left, out) = rebooting(last_pose, ip_from, live, n);
            &&& forall|i: int|
                n <= i < live.len() ==> left.contains_key((#[trigger] live[i]).packet.src)
                    == last_pose.contains_key(live[i].packet.src) && left[live[i].packet.src]
                    == last_pose[live[i].packet.src]
        }),
    decreases n,
{
    if n > 0 {
        lemma_rebooting(last_pose, ip_from, live, (n - 1) as nat);
        assert forall|i: int| n <= i < live.len() implies live[n - 1].packet.src != (
        #[trigger] live[i]).packet.src by {}
    }
}

/// A reboot is told of exactly the pucks whose clock fell back by more than an hour
/// since their last pose, by source and address, where samples are of sources of
/// their own; the pose from before the reboot is forgotten, and no other is.
pub proof fn every_reboot_is_told(
    last_pose: Map<u8, (u64, [Single; 3])>,
    ip_from: Map<u8, Seq<char>>,
    live: Seq<Sample>,
    n: nat,
    i: int,
)
    requires
        0 <= i < n <= live.len(),
        forall|a: int, b: int|
            0 <= a < b < live.len() ==> (#[trigger] live[a]).packet.src != (
            #[trigger] live[b]).packet.src,
    ensures
        ({
            let (left, out) = rebooting(last_pose, ip_from, live, n);
            let src = live[i].packet.src;
            let fell = last_pose.contains_key(src) && live[i].packet.t_ns + 3_600_000_000_000
                < last_pose[src].0 && ip_from.contains_key(src);
            &&& fell ==> out.contains((src, ip_from[src])) && !left.contains_key(src)
            &&& !fell ==> left.contains_key(src) == last_pose.contains_key(src) && left[src]
                == last_pose[src]
        }),
    decreases n,
{
    let (before, told) = rebooting(last_pose, ip_from, live, (n - 1) as nat);
    let (left, out) = rebooting(last_pose, ip_from, live, n);
    let src = live[i].packet.src;
    if i < n - 1 {
        every_reboot_is_told(last_pose, ip_from, live, (n - 1) as nat, i);
        assert(src != live[n - 1].packet.src);
        if told.contains((src, ip_from[src])) {
            let k = choose|k: int| 0 <= k < told.len() && told[k] == (src, ip_from[src]);
            assert(out[k] == (src, ip_from[src]));
        }
    } else {
        lemma_rebooting(last_pose, ip_from, live, (n - 1) as nat);
        if rebooted(before, ip_from, live[i]) {
            assert(out[told.len() as int] == (src, ip_from[src]));
        }
    }
}

/// A puck that comes back is told of: one whose role was not live before and is live
/// now, where the roster has an address for it. One that was live, that was never
/// seen, or that is not live now is not.
pub proof fn a_return_is_told(
    live_state: Map<u8, bool>,
    ip_of: Map<u8, Seq<char>>,
    slots: Seq<(Device, SlotState)>,
    n: nat,
)
    requires
        0 < n <= slots.len(),
    ensures
        ({
            let (m, told) = returning(live_state, ip_of, slots, (n - 1) as nat);
            let (after, out) = returning(live_state, ip_of, slots, n);
            let id = slots[n - 1].0.code();
            let back = slots[n - 1].1 is Live && m.contains_key(id) && !m[id];
            &&& back && ip_of.contains_key(id) ==> out == told.push(ip_of[id])
            &&& !back || !ip_of.contains_key(id) ==> out == told
            &&& after.contains_key(id) && (after[id] <==> slots[n - 1].1 is Live)
            &&& forall|x: u8|
                x != id ==> #[trigger] after.contains_key(x) == m.contains_key(x) && after[x] == m[x]
        }),
{
}

/// A pose jumped where it is more than 0.15 m away and came there at more than 10 m/s,
/// between samples that are more than 4 ms and less than 150 ms apart.
pub proof fn a_jump_is_far_and_fast(dt: Single, dist: Single, speed: Single)
    ensures
        teleported(dt, dist, speed) <==> {
            &&& crate::ieee::less(Single { bits: 0x3B83_126F }, dt)
            &&& crate::ieee::less(dt, Single { bits: 0x3E19_999A })
            &&& crate::ieee::less(Single { bits: 0x3E19_999A }, dist)
            &&& crate::ieee::less(Single { bits: 0x4120_0000 }, speed)
        },
{
}

/// Something is published four times a second, and the rates are counted anew once a
/// second.
pub proof fn publishing_keeps_its_pace(window: u64, now: u64)
    ensures
        publish_step(window, now) == if now >= window + 1_000_000_000 {
            Publish::Roll
        } else if now >= window + 250_000_000 {
            Publish::Keep
        } else {
            Publish::Wait
        },
{
}

proof fn lemma_counts_below(counts: Map<u8, u32>, bound: nat)
    requires
        bound <= 256,
    ensures
        ({
            let out = counts_below(counts, bound);
            &&& forall|i: int|
                0 <= i < out.len() ==> (#[trigger] out[i]).0 < bound && counts.contains_key(
                    out[i].0,
                ) && counts[out[i].0] == out[i].1
            &&& forall|i: int, k: int|
                0 <= i < k < out.len() ==> (#[trigger] out[i]).0 < (#[trigger] out[k]).0
            &&& forall|x: u8|
                x < bound && #[trigger] counts.contains_key(x) ==> out.contains((x, counts[x]))
        }),
    decreases bound,
{
    if bound > 0 {
        lemma_counts_below(counts, (bound - 1) as nat);
        let before = counts_below(counts, (bound - 1) as nat);
        let out = counts_below(counts, bound);
        assert forall|x: u8|
            x < bound && #[trigger] counts.contains_key(x) implies out.contains((x, counts[x])) by {
            if x < bound - 1 {
                let i = choose|i: int| 0 <= i < before.len() && before[i] == (x, counts[x]);
                assert(out[i] == (x, counts[x]));
            } else {
                assert(out[before.len() as int] == (x, counts[x]));
            }
        }
    }
}

/// The counts handed out are those of every source that was counted, once each and in
/// order.
pub proof fn every_count_is_handed_out(counts: Map<u8, u32>)
    ensures
        ({
            let out = counts_below(counts, 256);
            &&& forall|i: int|
                0 <= i < out.len() ==> counts.contains_key((#[trigger] out[i]).0)
                    && counts[out[i].0] == out[i].1
            &&& forall|i: int, k: int|
                0 <= i < k < out.len() ==> (#[trigger] out[i]).0 < (#[trigger] out[k]).0
            &&& forall|x: u8| #[trigger]
                counts.contains_key(x) ==> out.contains((x, counts[x]))
        }),
{
    lemma_counts_below(counts, 256);
}

/// A puck is found by its role as well, unless a later one has the same.
pub proof fn a_puck_is_found_by_its_role(pucks: Seq<PuckView>, k: int)
    requires
        0 <= k < pucks.len(),
        forall|i: int| k < i < pucks.len() ==> (#[trigger] pucks[i]).device != pucks[k].device,
    ensures
        address_map(pucks).contains_key(pucks[k].device),
        address_map(pucks)[pucks[k].device] == pucks[k].ip,
    decreases pucks.len(),
{
    let rest = pucks.drop_last();
    if k < rest.len() {
        assert(rest[k] == pucks[k]);
        assert(pucks.last() == pucks[pucks.len() - 1]);
        assert forall|i: int| k < i < rest.len() implies (#[trigger] rest[i]).device
            != rest[k].device by {
            assert(rest[i] == pucks[i]);
        }
        a_puck_is_found_by_its_role(rest, k);
    }
}

/// Every source heard from is shown under its role where it has one, in the order in
/// which it was heard, and is listed as unknown where it has none.
pub proof fn sources_keep_their_order(
    roles: Map<u8, Device>,
    heard: Seq<(u8, SlotState, Option<Sample>)>,
    n: nat,
)
    requires
        n <= heard.len(),
    ensures
        by_role(roles, heard, n).0 == heard.take(n as int).filter(
            |h: (u8, SlotState, Option<Sample>)| roles.contains_key(h.0),
        ).map_values(|h: (u8, SlotState, Option<Sample>)| (roles[h.0], h.1, h.0, h.2)),
        by_role(roles, heard, n).1 == heard.take(n as int).filter(
            |h: (u8, SlotState, Option<Sample>)| !roles.contains_key(h.0),
        ).map_values(|h: (u8, SlotState, Option<Sample>)| h.0),
    decreases n,
{
    reveal(Seq::filter);
    let known = |h: (u8, SlotState, Option<Sample>)| roles.contains_key(h.0);
    let unknown = |h: (u8, SlotState, Option<Sample>)| !roles.contains_key(h.0);
    let slot = |h: (u8, SlotState, Option<Sample>)| (roles[h.0], h.1, h.0, h.2);
    let src = |h: (u8, SlotState, Option<Sample>)| h.0;
    if n > 0 {
        sources_keep_their_order(roles, heard, (n - 1) as nat);
        assert(heard.take(n as int).drop_last() =~= heard.take(n - 1));
        assert(heard.take(n as int).last() == heard[n - 1]);
        let a = heard.take(n - 1).filter(known);
        let b = heard.take(n - 1).filter(unknown);
        let h = heard[n - 1];
        assert(a.push(h).map_values(slot) =~= a.map_values(slot).push(slot(h)));
        assert(b.push(h).map_values(src) =~= b.map_values(src).push(src(h)));
    } else {
        assert(heard.take(0) =~= Seq::<(u8, SlotState, Option<Sample>)>::empty());
        assert(by_role(roles, heard, 0).0 =~= heard.take(0).filter(known).map_values(slot));
        assert(by_role(roles, heard, 0).1 =~= heard.take(0).filter(unknown).map_values(src));
    }
}

} // verus!
