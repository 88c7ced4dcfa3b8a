//! The output side: every puck, one frame, one stream.
//!
//! Takes the newest sample per source, finds the role it is published under and
//! that role's transform, and says what is to be emitted. A role without a
//! transform is not emitted: an unaligned pose in an aligned stream is worse
//! than a missing one. Applying the transform and sending are the caller's.
//!
//! Timestamps are rewritten to the host clock, so that whoever reads the stream
//! sees one epoch instead of unrelated device clocks.

use crate::ieee::Single;
use crate::ingest::{counted, Sample};
use crate::jobs::since;
use crate::mpt1::Device;
use crate::transform::Frame4Dof;
use std::collections::BTreeMap;
use vstd::prelude::*;

verus! {

broadcast use vstd::std_specs::btree::group_btree_axioms;

pub struct Aggregator {
    /// Which role each source byte is published under.
    pub roles: BTreeMap<u8, Device>,
    /// LOCAL to shared frame, per role id.
    pub transforms: BTreeMap<u8, Frame4Dof>,
    /// The stamp of the sample last sent, per role id.
    pub last_emitted_t: BTreeMap<u8, u64>,
    pub emitted: u64,
    pub skipped_no_transform: u64,
}

/// What one sample contributes to the output.
#[derive(Debug, Clone, Copy, PartialEq, Eq)]
pub struct Emission {
    pub device: Device,
    /// Which of the samples.
    pub at: usize,
    /// The transform to apply.
    pub frame: Frame4Dof,
    /// The host time under which to send it, in nanoseconds; none where the same
    /// sample was sent before.
    pub stamp: Option<u64>,
}

/// What ticking remembers.
pub ghost struct Ticking {
    pub last: Map<u8, u64>,
    pub skipped: u64,
    pub out: Seq<Emission>,
}

/// What ticking over the first `n` samples makes.
pub open spec fn ticked(
    roles: Map<u8, Device>,
    transforms: Map<u8, Frame4Dof>,
    last: Map<u8, u64>,
    skipped: u64,
    live: Seq<Sample>,
    n: nat,
    now: u64,
    wall: u64,
) -> Ticking
    decreases n,
{
    if n == 0 {
        Ticking { last, skipped, out: Seq::empty() }
    } else {
        let before = ticked(roles, transforms, last, skipped, live, (n - 1) as nat, now, wall);
        let s = live[n - 1];
        if !roles.contains_key(s.packet.src) {
            before
        } else {
            let device = roles[s.packet.src];
            let id = device.code();
            if !transforms.contains_key(id) {
                Ticking { skipped: counted(before.skipped), ..before }
            } else {
                let sent = before.last.contains_key(id) && before.last[id] == s.packet.t_ns;
                Ticking {
                    last: before.last.insert(id, s.packet.t_ns),
                    out: before.out.push(
                        Emission {
                            device,
                            at: (n - 1) as usize,
                            frame: transforms[id],
                            stamp: if sent {
                                None
                            } else {
                                Some(since(since(s.arrived, now), wall))
                            },
                        },
                    ),
                    ..before
                }
            }
        }
    }
}

/// What one tick saw, for status display and health checks.
#[derive(Debug)]
pub struct TickSummary {
    pub live: Vec<(Device, [Single; 3])>,
    /// Distance between the first two live pucks, shared frame.
    pub separation: Option<Single>,
    /// Sum of those two pucks' reported speeds. Physical motion can change the
    /// separation at most this fast.
    pub speed_sum: Option<Single>,
}

impl TickSummary {
    /// What a tick saw: distance and speeds are only meant where at least two
    /// pucks are live.
    pub fn of(live: Vec<(Device, [Single; 3])>, separation: Single, speed_sum: Single) -> (r:
        TickSummary)
        ensures
            r.live == live,
            r.separation == (if live@.len() >= 2 {
                Some(separation)
            } else {
                None
            }),
            r.speed_sum == (if live@.len() >= 2 {
                Some(speed_sum)
            } else {
                None
            }),
    {
        if live.len() >= 2 {
            TickSummary { live, separation: Some(separation), speed_sum: Some(speed_sum) }
        } else {
            TickSummary { live, separation: None, speed_sum: None }
        }
    }
}

impl Aggregator {
    /// Nothing to publish yet.
    pub fn new() -> (r: Aggregator)
        ensures
            r.roles@ == Map::<u8, Device>::empty(),
            r.transforms@ == Map::<u8, Frame4Dof>::empty(),
            r.last_emitted_t@ == Map::<u8, u64>::empty(),
            r.emitted == 0,
            r.skipped_no_transform == 0,
    {
        Aggregator {
            roles: BTreeMap::new(),
            transforms: BTreeMap::new(),
            last_emitted_t: BTreeMap::new(),
            emitted: 0,
            skipped_no_transform: 0,
        }
    }

    /// What is to be emitted of the live samples: every one whose source has a
    /// role and whose role has a transform. A sample that was emitted before is
    /// listed for display but not sent again, so the output rate equals the input
    /// rate however often this is called. `now` is the host's monotonic clock and
    /// `wall` its wall clock.
    pub fn tick(&mut self, live: &Vec<Sample>, now: u64, wall: u64) -> (r: Vec<Emission>)
        ensures
            ({
                let t = ticked(
                    old(self).roles@,
                    old(self).transforms@,
                    old(self).last_emitted_t@,
                    old(self).skipped_no_transform,
                    live@,
                    live@.len(),
                    now,
                    wall,
                );
                &&& r@ == t.out
                &&& final(self).last_emitted_t@ == t.last
                &&& final(self).skipped_no_transform == t.skipped
            }),
            final(self).roles == old(self).roles,
            final(self).transforms == old(self).transforms,
            final(self).emitted == old(self).emitted,
    {
        let ghost last0 = self.last_emitted_t@;
        let ghost skipped0 = self.skipped_no_transform;
        let mut out: Vec<Emission> = Vec::new();
        let mut i: usize = 0;
        while i < live.len()
            invariant
                i <= live.len(),
                self.roles == old(self).roles,
                self.transforms == old(self).transforms,
                self.emitted == old(self).emitted,
                ({
                    let t = ticked(
                        self.roles@,
                        self.transforms@,
                        last0,
                        skipped0,
                        live@,
                        i as nat,
                        now,
                        wall,
                    );
                    &&& out@ == t.out
                    &&& self.last_emitted_t@ == t.last
                    &&& self.skipped_no_transform == t.skipped
                }),
            decreases live.len() - i,
        {
            let s = live[i];
            let role = match self.roles.get(&s.packet.src) {
                Some(d) => Some(*d),
                None => None,
            };
            if let Some(device) = role {
                let id: u8 = device.id();
                let frame = match self.transforms.get(&id) {
                    Some(f) => Some(*f),
                    None => None,
                };
                match frame {
                    None => {
                        self.skipped_no_transform = if self.skipped_no_transform == u64::MAX {
                            0
                        } else {
                            self.skipped_no_transform + 1
                        };
                    },
                    Some(frame) => {
                        let sent = match self.last_emitted_t.get(&id) {
                            Some(t) => *t == s.packet.t_ns,
                            None => false,
                        };
                        let stamp = if sent {
                            None
                        } else {
                            Some(wall.saturating_sub(s.age(now)))
                        };
                        self.last_emitted_t.insert(id, s.packet.t_ns);
                        out.push(Emission { device, at: i, frame, stamp });
                    },
                }
            }
            i = i + 1;
        }
        out
    }

    /// Enter whether an emission could be sent.
    pub fn sent(&mut self, ok: bool)
        ensures
            final(self).emitted == (if ok {
                counted(old(self).emitted)
            } else {
                old(self).emitted
            }),
            final(self).roles == old(self).roles,
            final(self).transforms == old(self).transforms,
            final(self).last_emitted_t == old(self).last_emitted_t,
            final(self).skipped_no_transform == old(self).skipped_no_transform,
    {
        if ok {
            self.emitted = if self.emitted == u64::MAX {
                0
            } else {
                self.emitted + 1
            };
        }
    }
}

/// Nothing is emitted but what has a role and that role's transform.
pub proof fn only_placed_roles_are_emitted(
    roles: Map<u8, Device>,
    transforms: Map<u8, Frame4Dof>,
    last: Map<u8, u64>,
    skipped: u64,
    live: Seq<Sample>,
    n: nat,
    now: u64,
    wall: u64,
)
    requires
        n <= live.len() <= usize::MAX,
    ensures
        forall|k: int|
            #![trigger ticked(roles, transforms, last, skipped, live, n, now, wall).out[k]]
            0 <= k < ticked(roles, transforms, last, skipped, live, n, now, wall).out.len() ==> {
                let e = ticked(roles, transforms, last, skipped, live, n, now, wall).out[k];
                &&& e.at < n
                &&& roles.contains_key(live[e.at as int].packet.src)
                &&& e.device == roles[live[e.at as int].packet.src]
                &&& transforms.contains_key(e.device.code())
                &&& e.frame == transforms[e.device.code()]
            },
    decreases n,
{
    if n > 0 {
        only_placed_roles_are_emitted(
            roles,
            transforms,
            last,
            skipped,
            live,
            (n - 1) as nat,
            now,
            wall,
        );
    }
}

/// The sources of the samples have roles of their own.
pub open spec fn roles_apart(roles: Map<u8, Device>, live: Seq<Sample>) -> bool {
    forall|i: int, k: int|
        0 <= i < k < live.len() && roles.contains_key((#[trigger] live[i]).packet.src)
            && roles.contains_key((#[trigger] live[k]).packet.src)
            ==> roles[live[i].packet.src] != roles[live[k].packet.src]
}

/// What has been emitted is remembered by its stamp.
proof fn lemma_remembered(
    roles: Map<u8, Device>,
    transforms: Map<u8, Frame4Dof>,
    last: Map<u8, u64>,
    skipped: u64,
    live: Seq<Sample>,
    n: nat,
    now: u64,
    wall: u64,
)
    requires
        n <= live.len(),
        roles_apart(roles, live),
    ensures
        forall|i: int|
            0 <= i < n && roles.contains_key((#[trigger] live[i]).packet.src)
                && transforms.contains_key(roles[live[i].packet.src].code()) ==> {
                let m = ticked(roles, transforms, last, skipped, live, n, now, wall).last;
                let id = roles[live[i].packet.src].code();
                m.contains_key(id) && m[id] == live[i].packet.t_ns
            },
    decreases n,
{
    if n > 0 {
        lemma_remembered(roles, transforms, last, skipped, live, (n - 1) as nat, now, wall);
        assert forall|i: int|
            0 <= i < n && roles.contains_key((#[trigger] live[i]).packet.src)
                && transforms.contains_key(roles[live[i].packet.src].code()) implies {
            let m = ticked(roles, transforms, last, skipped, live, n, now, wall).last;
            let id = roles[live[i].packet.src].code();
            m.contains_key(id) && m[id] == live[i].packet.t_ns
        } by {
            if i < n - 1 && roles.contains_key(live[n - 1].packet.src) {
                let (a, b) = (roles[live[i].packet.src], roles[live[n - 1].packet.src]);
                assert(a != b);
                crate::mpt1::every_role_keeps_its_id(a, b.code());
            }
        }
    }
}

/// A sample is sent once: ticking again over the same samples sends nothing,
/// where no two sources share a role.
pub proof fn a_sample_is_sent_once(
    roles: Map<u8, Device>,
    transforms: Map<u8, Frame4Dof>,
    last: Map<u8, u64>,
    skipped: u64,
    live: Seq<Sample>,
    now: u64,
    wall: u64,
    later: u64,
    wall_later: u64,
    skipped_later: u64,
    n: nat,
)
    requires
        n <= live.len(),
        roles_apart(roles, live),
    ensures
        ({
            let first = ticked(roles, transforms, last, skipped, live, live.len(), now, wall);
            let again = ticked(
                roles,
                transforms,
                first.last,
                skipped_later,
                live,
                n,
                later,
                wall_later,
            );
            &&& again.last == first.last
            &&& forall|k: int| 0 <= k < again.out.len() ==> (#[trigger] again.out[k]).stamp is None
        }),
    decreases n,
{
    let first = ticked(roles, transforms, last, skipped, live, live.len(), now, wall);
    lemma_remembered(roles, transforms, last, skipped, live, live.len(), now, wall);
    if n > 0 {
        a_sample_is_sent_once(
            roles,
            transforms,
            last,
            skipped,
            live,
            now,
            wall,
            later,
            wall_later,
            skipped_later,
            (n - 1) as nat,
        );
        let s = live[n - 1];
        if roles.contains_key(s.packet.src) {
            let id = roles[s.packet.src].code();
            if transforms.contains_key(id) {
                assert(first.last.contains_key(id) && first.last[id] == s.packet.t_ns);
                assert(first.last.insert(id, s.packet.t_ns) =~= first.last);
            }
        }
    }
}

/// A sample is published as role `d`: its source has that role, and the role has a
/// transform.
pub open spec fn publishes(
    roles: Map<u8, Device>,
    transforms: Map<u8, Frame4Dof>,
    s: Sample,
    d: Device,
) -> bool {
    roles.contains_key(s.packet.src) && roles[s.packet.src] == d && transforms.contains_key(
        d.code(),
    )
}

/// What a role's latest sample before the `n`-th was stamped, be it in this tick or
/// before it.
proof fn lemma_last_known(
    roles: Map<u8, Device>,
    transforms: Map<u8, Frame4Dof>,
    last: Map<u8, u64>,
    skipped: u64,
    live: Seq<Sample>,
    n: nat,
    now: u64,
    wall: u64,
)
    requires
        n <= live.len(),
    ensures
        ({
            let m = ticked(roles, transforms, last, skipped, live, n, now, wall).last;
            &&& forall|j: int, d: Device|
                0 <= j < n && #[trigger] publishes(roles, transforms, live[j], d) && (forall|k: int|
                    j < k < n ==> !#[trigger] publishes(roles, transforms, live[k], d))
                    ==> m.contains_key(d.code()) && m[d.code()] == live[j].packet.t_ns
            &&& forall|d: Device|
                (forall|k: int| 0 <= k < n ==> !#[trigger] publishes(roles, transforms, live[k], d))
                    ==> m.contains_key(#[trigger] d.code()) == last.contains_key(d.code())
                    && m[d.code()] == last[d.code()]
        }),
    decreases n,
{
    if n > 0 {
        lemma_last_known(roles, transforms, last, skipped, live, (n - 1) as nat, now, wall);
        let m = ticked(roles, transforms, last, skipped, live, n, now, wall).last;
        let before = ticked(roles, transforms, last, skipped, live, (n - 1) as nat, now, wall).last;
        let s = live[n - 1];
        assert forall|j: int, d: Device|
            0 <= j < n && #[trigger] publishes(roles, transforms, live[j], d) && (forall|k: int|
                j < k < n ==> !#[trigger] publishes(
                    roles,
                    transforms,
                    live[k],
                    d,
                )) implies m.contains_key(d.code()) && m[d.code()] == live[j].packet.t_ns by {
            if j < n - 1 {
                assert(!publishes(roles, transforms, live[n - 1], d));
                if roles.contains_key(s.packet.src) {
                    crate::mpt1::every_role_keeps_its_id(d, roles[s.packet.src].code());
                }
                assert(before.contains_key(d.code()) && before[d.code()] == live[j].packet.t_ns);
            }
        }
        assert forall|d: Device|
            (forall|k: int|
                0 <= k < n ==> !#[trigger] publishes(
                    roles,
                    transforms,
                    live[k],
                    d,
                )) implies m.contains_key(#[trigger] d.code()) == last.contains_key(d.code())
            && m[d.code()] == last[d.code()] by {
            assert(!publishes(roles, transforms, live[n - 1], d));
            if roles.contains_key(s.packet.src) {
                crate::mpt1::every_role_keeps_its_id(d, roles[s.packet.src].code());
            }
        }
    }
}

/// Every sample whose source has a role, and whose role has a transform, is listed
/// once and in order, under its role and with that role's transform; no other is.
pub proof fn every_placed_sample_is_listed_once(
    roles: Map<u8, Device>,
    transforms: Map<u8, Frame4Dof>,
    last: Map<u8, u64>,
    skipped: u64,
    live: Seq<Sample>,
    n: nat,
    now: u64,
    wall: u64,
)
    requires
        n <= live.len() <= usize::MAX,
    ensures
        ({
            let out = ticked(roles, transforms, last, skipped, live, n, now, wall).out;
            &&& forall|i: int, d: Device|
                0 <= i < n && #[trigger] publishes(roles, transforms, live[i], d) ==> exists|k: int|
                    0 <= k < out.len() && (#[trigger] out[k]).at == i
            &&& forall|k: int|
                0 <= k < out.len() ==> (#[trigger] out[k]).at < n && publishes(
                    roles,
                    transforms,
                    live[out[k].at as int],
                    out[k].device,
                ) && out[k].frame == transforms[out[k].device.code()]
            &&& forall|k: int, l: int|
                0 <= k < l < out.len() ==> (#[trigger] out[k]).at < (#[trigger] out[l]).at
        }),
    decreases n,
{
    if n > 0 {
        every_placed_sample_is_listed_once(
            roles,
            transforms,
            last,
            skipped,
            live,
            (n - 1) as nat,
            now,
            wall,
        );
        let before = ticked(roles, transforms, last, skipped, live, (n - 1) as nat, now, wall).out;
        let out = ticked(roles, transforms, last, skipped, live, n, now, wall).out;
        assert forall|i: int, d: Device|
            0 <= i < n && #[trigger] publishes(
                roles,
                transforms,
                live[i],
                d,
            ) implies exists|k: int| 0 <= k < out.len() && (#[trigger] out[k]).at == i by {
            if i < n - 1 {
                let k = choose|k: int| 0 <= k < before.len() && (#[trigger] before[k]).at == i;
                assert(out[k] == before[k]);
            } else {
                assert(out[out.len() - 1].at == i);
            }
        }
    }
}

/// A new sample is sent, under the host time at which it arrived; one that bears the
/// stamp of the last one published under its role is not sent again. That last one
/// is of the same tick where there is one, and else the one remembered.
pub proof fn a_new_sample_is_sent(
    roles: Map<u8, Device>,
    transforms: Map<u8, Frame4Dof>,
    last: Map<u8, u64>,
    skipped: u64,
    live: Seq<Sample>,
    n: nat,
    now: u64,
    wall: u64,
    k: int,
)
    requires
        n <= live.len() <= usize::MAX,
        0 <= k < ticked(roles, transforms, last, skipped, live, n, now, wall).out.len(),
    ensures
        ({
            let e = ticked(roles, transforms, last, skipped, live, n, now, wall).out[k];
            let s = live[e.at as int];
            let d = e.device;
            let age = if now >= s.arrived {
                now - s.arrived
            } else {
                0
            };
            &&& e.stamp matches Some(t) ==> t == if wall >= age {
                wall - age
            } else {
                0
            }
            &&& (forall|j: int|
                0 <= j < e.at ==> !#[trigger] publishes(roles, transforms, live[j], d)) ==> (
            e.stamp is None <==> last.contains_key(d.code()) && last[d.code()] == s.packet.t_ns)
            &&& forall|j: int|
                0 <= j < e.at && #[trigger] publishes(roles, transforms, live[j], d) && (forall|
                    m: int,
                | j < m < e.at ==> !#[trigger] publishes(roles, transforms, live[m], d)) ==> (
                e.stamp is None <==> live[j].packet.t_ns == s.packet.t_ns)
        }),
    decreases n,
{
    let before = ticked(roles, transforms, last, skipped, live, (n - 1) as nat, now, wall);
    if k < before.out.len() {
        a_new_sample_is_sent(
            roles,
            transforms,
            last,
            skipped,
            live,
            (n - 1) as nat,
            now,
            wall,
            k,
        );
    } else {
        lemma_last_known(roles, transforms, last, skipped, live, (n - 1) as nat, now, wall);
    }
}

/// One tick after another: where no two sources share a role, a sample that follows
/// another of its role is sent in the second tick if and only if its stamp differs
/// from the one published in the first.
pub proof fn the_output_keeps_pace_with_the_input(
    roles: Map<u8, Device>,
    transforms: Map<u8, Frame4Dof>,
    last: Map<u8, u64>,
    live: Seq<Sample>,
    now: u64,
    wall: u64,
    next: Seq<Sample>,
    later: u64,
    wall_later: u64,
    skipped: u64,
    i: int,
    k: int,
    d: Device,
)
    requires
        live.len() <= usize::MAX,
        next.len() <= usize::MAX,
        roles_apart(roles, live),
        roles_apart(roles, next),
        0 <= i < live.len(),
        publishes(roles, transforms, live[i], d),
        0 <= k < next.len(),
        publishes(roles, transforms, next[k], d),
    ensures
        ({
            let first = ticked(roles, transforms, last, skipped, live, live.len(), now, wall);
            let second = ticked(
                roles,
                transforms,
                first.last,
                first.skipped,
                next,
                next.len(),
                later,
                wall_later,
            );
            exists|m: int|
                0 <= m < second.out.len() && (#[trigger] second.out[m]).at == k
                    && second.out[m].device == d && (second.out[m].stamp is Some
                    <==> next[k].packet.t_ns != live[i].packet.t_ns)
        }),
{
    let first = ticked(roles, transforms, last, skipped, live, live.len(), now, wall);
    let second = ticked(
        roles,
        transforms,
        first.last,
        first.skipped,
        next,
        next.len(),
        later,
        wall_later,
    );
    lemma_last_known(roles, transforms, last, skipped, live, live.len(), now, wall);
    assert forall|j: int| i < j < live.len() implies !#[trigger] publishes(
        roles,
        transforms,
        live[j],
        d,
    ) by {
        assert(live[i] == live[i]);
    }
    assert(first.last.contains_key(d.code()) && first.last[d.code()] == live[i].packet.t_ns);
    every_placed_sample_is_listed_once(
        roles,
        transforms,
        first.last,
        first.skipped,
        next,
        next.len(),
        later,
        wall_later,
    );
    let m = choose|m: int| 0 <= m < second.out.len() && (#[trigger] second.out[m]).at == k;
    a_new_sample_is_sent(
        roles,
        transforms,
        first.last,
        first.skipped,
        next,
        next.len(),
        later,
        wall_later,
        m,
    );
    assert forall|j: int| 0 <= j < k implies !#[trigger] publishes(
        roles,
        transforms,
        next[j],
        d,
    ) by {
        assert(next[k] == next[k]);
    }
}

/// A sample is counted as passed over exactly where its source has a role that has
/// no transform. The count starts over after the greatest there is.
pub proof fn unplaced_samples_are_counted(
    roles: Map<u8, Device>,
    transforms: Map<u8, Frame4Dof>,
    last: Map<u8, u64>,
    skipped: u64,
    live: Seq<Sample>,
    n: nat,
    now: u64,
    wall: u64,
)
    requires
        n <= live.len(),
    ensures
        ticked(roles, transforms, last, skipped, live, n, now, wall).skipped == (skipped
            + live.take(n as int).filter(
            |s: Sample|
                roles.contains_key(s.packet.src) && !transforms.contains_key(
                    roles[s.packet.src].code(),
                ),
        ).len()) % 0x1_0000_0000_0000_0000,
    decreases n,
{
    reveal(Seq::filter);
    if n > 0 {
        unplaced_samples_are_counted(
            roles,
            transforms,
            last,
            skipped,
            live,
            (n - 1) as nat,
            now,
            wall,
        );
        assert(live.take(n as int).drop_last() =~= live.take(n - 1));
        assert(live.take(n as int).last() == live[n - 1]);
    } else {
        assert(live.take(0) =~= Seq::<Sample>::empty());
    }
}

} // verus!
