//! Receiving tracker poses.
//!
//! Each puck streams MPT1 to one UDP port. This keeps the newest packet per
//! source and nothing else: a pose that has been superseded is worthless, so
//! there is no queue to fall behind. Readers ask for the current state and get
//! an answer that is either fresh or explicitly not.
//!
//! Freshness is judged on arrival. Each packet carries `t_ns` on the producer's
//! clock, and those clocks do not share an epoch. Arrival is handed in as
//! nanoseconds on the host's monotonic clock.

use crate::jobs::since;
use crate::mpt1::{DecodeError, Packet, SourcePacket};
use std::collections::BTreeMap;
use vstd::prelude::*;

verus! {

broadcast use vstd::std_specs::btree::group_btree_axioms;

/// A packet plus when it landed here.
#[derive(Debug, Clone, Copy, PartialEq, Eq)]
pub struct Sample {
    pub packet: SourcePacket,
    pub arrived: u64,
}

impl Sample {
    /// Nanoseconds since the packet landed.
    pub fn age(&self, now: u64) -> (r: u64)
        ensures
            r == since(self.arrived, now),
    {
        now.saturating_sub(self.arrived)
    }

    /// Safe to consume: tracking, and fresh.
    pub open spec fn usable(self, stale_after: u64, now: u64) -> bool {
        self.packet.valid && since(self.arrived, now) <= stale_after
    }
}

/// What a consumer sees for one source right now.
#[derive(Debug, Clone, Copy, PartialEq, Eq, Structural)]
pub enum SlotState {
    /// Nothing has ever arrived from this source.
    Absent,
    /// Packets are arriving but the tracker says it is not tracking. Its pose
    /// must not be used.
    NotTracking,
    /// Packets stopped: the tracker crashed, lost the network, or was switched
    /// off.
    Stale,
    /// Usable.
    Live,
}

#[derive(Debug, Default, Clone, Copy, PartialEq, Eq, Structural)]
pub struct Stats {
    pub received: u64,
    pub malformed: u64,
}

/// The newest pose per source.
pub struct Ingest {
    /// Keyed by the source byte the sender stamped, not by role. Resolution to
    /// a role happens downstream, so that a role can be reassigned without
    /// touching the puck.
    pub slots: BTreeMap<u8, Sample>,
    pub stats: Stats,
    /// How long a packet counts as fresh, in nanoseconds: a few packet
    /// intervals.
    pub stale_after: u64,
}

/// One more, wrapping around.
pub open spec fn counted(n: u64) -> u64 {
    ((n as int + 1) % 0x1_0000_0000_0000_0000) as u64
}

/// What a source's newest sample amounts to.
pub open spec fn slot_state(slots: Map<u8, Sample>, stale_after: u64, src: u8, now: u64) -> SlotState {
    if !slots.contains_key(src) {
        SlotState::Absent
    } else if since(slots[src].arrived, now) > stale_after {
        SlotState::Stale
    } else if !slots[src].packet.valid {
        SlotState::NotTracking
    } else {
        SlotState::Live
    }
}

/// The usable samples of the sources below `bound`, in the order of the sources.
pub open spec fn usable_below(
    slots: Map<u8, Sample>,
    stale_after: u64,
    now: u64,
    bound: nat,
) -> Seq<Sample>
    decreases bound,
{
    if bound == 0 {
        Seq::empty()
    } else {
        let before = usable_below(slots, stale_after, now, (bound - 1) as nat);
        let src = (bound - 1) as u8;
        if slots.contains_key(src) && slots[src].usable(stale_after, now) {
            before.push(slots[src])
        } else {
            before
        }
    }
}

/// The sources below `bound` heard from, each with its verdict and its newest
/// sample, in order.
pub open spec fn heard_below(
    slots: Map<u8, Sample>,
    stale_after: u64,
    now: u64,
    bound: nat,
) -> Seq<(u8, SlotState, Option<Sample>)>
    decreases bound,
{
    if bound == 0 {
        Seq::empty()
    } else {
        let before = heard_below(slots, stale_after, now, (bound - 1) as nat);
        let src = (bound - 1) as u8;
        if slots.contains_key(src) {
            before.push((src, slot_state(slots, stale_after, src, now), Some(slots[src])))
        } else {
            before
        }
    }
}

/// What is known after a datagram that landed at `now`.
pub open spec fn took_in(
    slots: Map<u8, Sample>,
    stats: Stats,
    datagram: Seq<u8>,
    now: u64,
) -> (Map<u8, Sample>, Stats) {
    match SourcePacket::read(datagram) {
        Ok(p) => (
            slots.insert(p.src, Sample { packet: p, arrived: now }),
            Stats { received: counted(stats.received), malformed: stats.malformed },
        ),
        Err(_) => (
            slots,
            Stats { received: stats.received, malformed: counted(stats.malformed) },
        ),
    }
}

fn bump(n: u64) -> (r: u64)
    ensures
        r == counted(n),
{
    if n == u64::MAX {
        0
    } else {
        n + 1
    }
}

impl Ingest {
    /// Nothing received yet.
    pub fn new(stale_after: u64) -> (r: Ingest)
        ensures
            r.slots@ == Map::<u8, Sample>::empty(),
            r.stats == (Stats { received: 0, malformed: 0 }),
            r.stale_after == stale_after,
    {
        Ingest {
            slots: BTreeMap::new(),
            stats: Stats { received: 0, malformed: 0 },
            stale_after,
        }
    }

    /// Take one datagram in: a packet replaces what its source sent before,
    /// anything else is counted.
    pub fn receive(&mut self, datagram: &[u8], now: u64)
        ensures
            final(self).stale_after == old(self).stale_after,
            (final(self).slots@, final(self).stats) == took_in(
                old(self).slots@,
                old(self).stats,
                datagram@,
                now,
            ),
    {
        match SourcePacket::decode(datagram) {
            Ok(packet) => {
                self.stats.received = bump(self.stats.received);
                self.slots.insert(packet.src, Sample { packet, arrived: now });
            },
            Err(_) => {
                self.stats.malformed = bump(self.stats.malformed);
            },
        }
    }

    /// Take one datagram in, from pucks that stamp their roles: a byte that names no
    /// role makes it no packet, and it is counted as such.
    pub fn receive_role(&mut self, datagram: &[u8], now: u64)
        ensures
            final(self).stale_after == old(self).stale_after,
            match Packet::read(datagram@) {
                Ok(p) => final(self).slots@ == old(self).slots@.insert(
                    p.device.code(),
                    Sample { packet: p.source(), arrived: now },
                ) && final(self).stats == (Stats {
                    received: counted(old(self).stats.received),
                    malformed: old(self).stats.malformed,
                }),
                Err(_) => final(self).slots@ == old(self).slots@ && final(self).stats == (Stats {
                    received: old(self).stats.received,
                    malformed: counted(old(self).stats.malformed),
                }),
            },
    {
        match Packet::decode(datagram) {
            Ok(_) => self.receive(datagram, now),
            Err(_) => {
                self.stats.malformed = bump(self.stats.malformed);
            },
        }
    }

    /// Newest sample of a source, whether or not it is usable.
    pub fn sample(&self, src: u8) -> (r: Option<Sample>)
        ensures
            r == (if self.slots@.contains_key(src) {
                Some(self.slots@[src])
            } else {
                None
            }),
    {
        match self.slots.get(&src) {
            Some(s) => Some(*s),
            None => None,
        }
    }

    /// What a source's newest sample amounts to.
    pub fn state(&self, src: u8, now: u64) -> (r: SlotState)
        ensures
            r == slot_state(self.slots@, self.stale_after, src, now),
    {
        match self.sample(src) {
            None => SlotState::Absent,
            Some(s) => if s.age(now) > self.stale_after {
                SlotState::Stale
            } else if !s.packet.valid {
                SlotState::NotTracking
            } else {
                SlotState::Live
            },
        }
    }

    /// Only the samples safe to consume: present, tracking, and fresh.
    pub fn live(&self, now: u64) -> (r: Vec<Sample>)
        ensures
            r@ == usable_below(self.slots@, self.stale_after, now, 256),
    {
        let mut out: Vec<Sample> = Vec::new();
        let mut k: u16 = 0;
        while k < 256
            invariant
                k <= 256,
                out@ == usable_below(self.slots@, self.stale_after, now, k as nat),
            decreases 256 - k,
        {
            if let Some(s) = self.sample(k as u8) {
                if s.packet.valid && s.age(now) <= self.stale_after {
                    out.push(s);
                }
            }
            k = k + 1;
        }
        out
    }

    /// Every source heard from, with its verdict. Enumerates what arrived, so
    /// that a puck whose id the host does not recognise still shows up.
    pub fn all(&self, now: u64) -> (r: Vec<(u8, SlotState, Option<Sample>)>)
        ensures
            r@ == heard_below(self.slots@, self.stale_after, now, 256),
    {
        let mut out: Vec<(u8, SlotState, Option<Sample>)> = Vec::new();
        let mut k: u16 = 0;
        while k < 256
            invariant
                k <= 256,
                out@ == heard_below(self.slots@, self.stale_after, now, k as nat),
            decreases 256 - k,
        {
            let src: u8 = k as u8;
            if let Some(s) = self.sample(src) {
                out.push((src, self.state(src, now), Some(s)));
            }
            k = k + 1;
        }
        out
    }

    pub fn stats(&self) -> (r: Stats)
        ensures
            r == self.stats,
    {
        self.stats
    }
}

/// A pose is handed to consumers exactly when its source's verdict is
/// [`SlotState::Live`]: one that says it is not tracking never is, and neither is
/// a stale one.
pub proof fn only_live_poses_are_consumed(
    slots: Map<u8, Sample>,
    stale_after: u64,
    now: u64,
    s: Sample,
)
    ensures
        usable_below(slots, stale_after, now, 256).contains(s) <==> exists|src: u8|
            #[trigger] slots.contains_key(src) && slots[src] == s && slot_state(
                slots,
                stale_after,
                src,
                now,
            ) is Live,
{
    lemma_usable_below(slots, stale_after, now, s, 256);
}

proof fn lemma_usable_below(
    slots: Map<u8, Sample>,
    stale_after: u64,
    now: u64,
    s: Sample,
    bound: nat,
)
    requires
        bound <= 256,
    ensures
        usable_below(slots, stale_after, now, bound).contains(s) <==> exists|src: u8|
            #[trigger] slots.contains_key(src) && src < bound && slots[src] == s && slot_state(
                slots,
                stale_after,
                src,
                now,
            ) is Live,
    decreases bound,
{
    if bound > 0 {
        let prev = (bound - 1) as nat;
        lemma_usable_below(slots, stale_after, now, s, prev);
        let before = usable_below(slots, stale_after, now, prev);
        let all = usable_below(slots, stale_after, now, bound);
        let src = prev as u8;
        if all.contains(s) {
            let i = choose|i: int| 0 <= i < all.len() && all[i] == s;
            if i < before.len() {
                assert(before[i] == s);
                assert(before.contains(s));
            } else {
                assert(slots.contains_key(src) && slots[src] == s);
            }
        }
        if exists|x: u8| #[trigger]
            slots.contains_key(x) && x < bound && slots[x] == s && slot_state(
                slots,
                stale_after,
                x,
                now,
            ) is Live {
            let x = choose|x: u8| #[trigger]
                slots.contains_key(x) && x < bound && slots[x] == s && slot_state(
                    slots,
                    stale_after,
                    x,
                    now,
                ) is Live;
            if x < prev {
                assert(before.contains(s));
                let i = choose|i: int| 0 <= i < before.len() && before[i] == s;
                assert(all[i] == s);
            } else {
                assert(all[before.len() as int] == s);
            }
        }
    }
}

/// A packet that was sent is read back as its source's newest, live while it is
/// fresh and valid, and it changes no other source.
pub proof fn a_received_packet_is_the_newest(
    slots: Map<u8, Sample>,
    stale_after: u64,
    p: SourcePacket,
    at: u64,
    now: u64,
    other: u8,
)
    requires
        at <= now,
        now - at <= stale_after,
    ensures
        SourcePacket::read(p.wire()) == Ok::<SourcePacket, DecodeError>(p),
        slot_state(slots.insert(p.src, Sample { packet: p, arrived: at }), stale_after, p.src, now)
            == (if p.valid {
            SlotState::Live
        } else {
            SlotState::NotTracking
        }),
        other != p.src ==> slot_state(
            slots.insert(p.src, Sample { packet: p, arrived: at }),
            stale_after,
            other,
            now,
        ) == slot_state(slots, stale_after, other, now),
{
    crate::mpt1::source_round_trip(p);
}

/// A verdict says what arrived: nothing ever, nothing for longer than counts as
/// fresh, a tracker that is lost, or one that tracks. Arriving late is worse than
/// not tracking.
pub proof fn a_verdict_says_what_arrived(
    slots: Map<u8, Sample>,
    stale_after: u64,
    src: u8,
    now: u64,
)
    ensures
        ({
            let v = slot_state(slots, stale_after, src, now);
            let fresh = now <= slots[src].arrived + stale_after;
            &&& v is Absent <==> !slots.contains_key(src)
            &&& v is Stale <==> slots.contains_key(src) && !fresh
            &&& v is NotTracking <==> slots.contains_key(src) && fresh && !slots[src].packet.valid
            &&& v is Live <==> slots.contains_key(src) && fresh && slots[src].packet.valid
        }),
{
}

proof fn lemma_usable_order(slots: Map<u8, Sample>, stale_after: u64, now: u64, bound: nat)
    requires
        bound <= 256,
        forall|x: u8| slots.contains_key(x) ==> (#[trigger] slots[x]).packet.src == x,
    ensures
        ({
            let out = usable_below(slots, stale_after, now, bound);
            &&& forall|i: int|
                0 <= i < out.len() ==> (#[trigger] out[i]).packet.src < bound && slots.contains_key(
                    out[i].packet.src,
                ) && slots[out[i].packet.src] == out[i] && out[i].packet.valid && now
                    <= out[i].arrived + stale_after
            &&& forall|i: int, k: int|
                0 <= i < k < out.len() ==> (#[trigger] out[i]).packet.src < (
                #[trigger] out[k]).packet.src
            &&& forall|x: u8|
                x < bound && #[trigger] slots.contains_key(x) && slots[x].packet.valid && now
                    <= slots[x].arrived + stale_after ==> out.contains(slots[x])
        }),
    decreases bound,
{
    if bound > 0 {
        lemma_usable_order(slots, stale_after, now, (bound - 1) as nat);
        let before = usable_below(slots, stale_after, now, (bound - 1) as nat);
        let out = usable_below(slots, stale_after, now, bound);
        assert forall|x: u8|
            x < bound && #[trigger] slots.contains_key(x) && slots[x].packet.valid && now
                <= slots[x].arrived + stale_after implies out.contains(slots[x]) by {
            if x < bound - 1 {
                let i = choose|i: int| 0 <= i < before.len() && before[i] == slots[x];
                assert(out[i] == slots[x]);
            } else {
                assert(out[before.len() as int] == slots[x]);
            }
        }
    }
}

/// What consumers get is every sample that tracks and is fresh, one for each source,
/// in the order of the sources, and nothing else.
pub proof fn consumers_get_every_live_source_once(
    slots: Map<u8, Sample>,
    stale_after: u64,
    now: u64,
)
    requires
        forall|x: u8| slots.contains_key(x) ==> (#[trigger] slots[x]).packet.src == x,
    ensures
        ({
            let out = usable_below(slots, stale_after, now, 256);
            &&& forall|i: int|
                0 <= i < out.len() ==> slots.contains_key((#[trigger] out[i]).packet.src)
                    && slots[out[i].packet.src] == out[i] && out[i].packet.valid && now
                    <= out[i].arrived + stale_after
            &&& forall|i: int, k: int|
                0 <= i < k < out.len() ==> (#[trigger] out[i]).packet.src < (
                #[trigger] out[k]).packet.src
            &&& forall|x: u8|
                #[trigger] slots.contains_key(x) && slots[x].packet.valid && now
                    <= slots[x].arrived + stale_after ==> out.contains(slots[x])
        }),
{
    lemma_usable_order(slots, stale_after, now, 256);
}

proof fn lemma_heard_order(slots: Map<u8, Sample>, stale_after: u64, now: u64, bound: nat)
    requires
        bound <= 256,
    ensures
        ({
            let out = heard_below(slots, stale_after, now, bound);
            &&& forall|i: int|
                0 <= i < out.len() ==> (#[trigger] out[i]).0 < bound && slots.contains_key(out[i].0)
                    && out[i].2 == Some(slots[out[i].0]) && out[i].1 == slot_state(
                    slots,
                    stale_after,
                    out[i].0,
                    now,
                )
            &&& forall|i: int, k: int|
                0 <= i < k < out.len() ==> (#[trigger] out[i]).0 < (#[trigger] out[k]).0
            &&& forall|x: u8|
                x < bound && #[trigger] slots.contains_key(x) ==> exists|i: int|
                    0 <= i < out.len() && (#[trigger] out[i]).0 == x
        }),
    decreases bound,
{
    if bound > 0 {
        lemma_heard_order(slots, stale_after, now, (bound - 1) as nat);
        let before = heard_below(slots, stale_after, now, (bound - 1) as nat);
        let out = heard_below(slots, stale_after, now, bound);
        assert forall|x: u8| x < bound && #[trigger] slots.contains_key(x) implies exists|i: int|
            0 <= i < out.len() && (#[trigger] out[i]).0 == x by {
            if x < bound - 1 {
                let i = choose|i: int| 0 <= i < before.len() && (#[trigger] before[i]).0 == x;
                assert(out[i].0 == x);
            } else {
                assert(out[before.len() as int].0 == x);
            }
        }
    }
}

/// Every source that was ever heard from is shown once, in order, with its newest
/// sample and the verdict on it; none that was not is.
pub proof fn every_source_heard_from_is_shown(
    slots: Map<u8, Sample>,
    stale_after: u64,
    now: u64,
)
    ensures
        ({
            let out = heard_below(slots, stale_after, now, 256);
            &&& forall|i: int|
                0 <= i < out.len() ==> slots.contains_key((#[trigger] out[i]).0) && out[i].2 == Some(
                    slots[out[i].0],
                ) && out[i].1 == slot_state(slots, stale_after, out[i].0, now)
            &&& forall|i: int, k: int|
                0 <= i < k < out.len() ==> (#[trigger] out[i]).0 < (#[trigger] out[k]).0
            &&& forall|x: u8| #[trigger]
                slots.contains_key(x) ==> exists|i: int|
                    0 <= i < out.len() && (#[trigger] out[i]).0 == x
        }),
{
    lemma_heard_order(slots, stale_after, now, 256);
}

/// Every packet replaces what its source sent before, whatever the two say of time,
/// and no other source changes; it landed now. Anything that is no packet is counted
/// and changes nothing else.
pub proof fn the_newest_packet_counts(
    slots: Map<u8, Sample>,
    stats: Stats,
    b: Seq<u8>,
    now: u64,
    other: u8,
)
    requires
        b.len() <= usize::MAX,
    ensures
        ({
            let (after, n) = took_in(slots, stats, b, now);
            let packet = b.len() == 68 && b[0] == 0x4D && b[1] == 0x50 && b[2] == 0x54 && b[3]
                == 0x31;
            &&& packet ==> after.contains_key(b[4]) && after[b[4]].arrived == now
                && crate::mpt1::laid_out(after[b[4]].packet, b)
            &&& packet ==> n.received == (stats.received + 1) % 0x1_0000_0000_0000_0000
                && n.malformed == stats.malformed
            &&& !packet ==> after == slots && n.received == stats.received && n.malformed == (
            stats.malformed + 1) % 0x1_0000_0000_0000_0000
            &&& !packet || other != b[4] ==> after.contains_key(other) == slots.contains_key(other)
                && after[other] == slots[other]
        }),
{
    crate::mpt1::fields_are_read_at_their_offsets(b);
    if b.len() == 68 && b[0] == 0x4D && b[1] == 0x50 && b[2] == 0x54 && b[3] == 0x31 {
        assert(SourcePacket::read(b) is Ok);
    }
}

} // verus!
