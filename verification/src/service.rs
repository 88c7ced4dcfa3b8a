//! The always-on service: ingest, align, emit, with nobody pressing buttons.
//!
//! The calibration this system needs is automatable because it has a
//! machine-detectable trigger and a machine-checkable precondition: the
//! watchdog and the monitor run it, and the operator's buttons only set the same
//! flags. This module holds what they publish; the long operations stand in the
//! modules below it.

use crate::book::Book;
use crate::ieee::Single;
use crate::ingest::{Sample, SlotState};
use crate::jobs::Job;
use crate::mpt1::Device;
use crate::text;
use crate::watchdog::BridgeState;
use vstd::prelude::*;

pub mod control;
pub mod create;
pub mod notice;
pub mod role;
pub mod share;
pub mod stream;
pub mod turn;

verus! {

/// How many events are kept.
pub const EVENTS: usize = 8;

/// What the operator sees. The rate of a slot is in packets per second and its
/// age in seconds.
#[derive(Debug, Clone)]
pub struct ServiceView {
    pub live: Vec<(Device, [Single; 3])>,
    pub sep: Option<Single>,
    pub slots: Vec<(Device, SlotState, Single, Single)>,
    /// Sources sending valid packets that no roster entry claims. Surfaced
    /// rather than dropped: this is what an unprovisioned puck looks like.
    pub unknown_sources: Vec<u8>,
    pub emitted: u64,
    pub n_transforms: usize,
    /// Long fleet operations, newest last.
    pub jobs: Vec<Job>,
    /// Address, state and yaw in degrees of each bridge.
    pub bridges: Vec<(String, BridgeState, Single)>,
    pub drifted: bool,
    pub events: Vec<String>,
    pub error: Option<String>,
}

/// The newest of a list of events, as many as are kept.
pub open spec fn newest(events: Seq<Seq<char>>) -> Seq<Seq<char>> {
    if events.len() > EVENTS {
        events.skip(events.len() - EVENTS)
    } else {
        events
    }
}

/// The bridges with the state of the first one at `ip` changed, from `from` on.
pub open spec fn marked(
    bridges: Seq<(String, BridgeState, Single)>,
    ip: Seq<char>,
    state: BridgeState,
    from: nat,
) -> Seq<(String, BridgeState, Single)>
    decreases bridges.len() - from,
{
    if from >= bridges.len() {
        bridges
    } else if bridges[from as int].0@ == ip {
        bridges.update(from as int, (bridges[from as int].0, state, bridges[from as int].2))
    } else {
        marked(bridges, ip, state, from + 1)
    }
}

/// The rates that slots were shown with, by role id.
pub open spec fn shown_rates(slots: Seq<(Device, SlotState, Single, Single)>) -> Seq<(u8, Single)> {
    slots.map_values(|s: (Device, SlotState, Single, Single)| (s.0.code(), s.3))
}

/// The rate of a source among the first `n`, zero where there is none. Of two
/// the later counts.
pub open spec fn rate_among(rates: Seq<(u8, Single)>, src: u8, n: nat) -> Single
    decreases n,
{
    if n == 0 {
        (Single { bits: 0 })
    } else if rates[n - 1].0 == src {
        rates[n - 1].1
    } else {
        rate_among(rates, src, (n - 1) as nat)
    }
}

/// The rate a slot is shown with: the one counted of its source. Where none are
/// counted now, the rates shown before stand in for them; those are known by role
/// id, so a puck that stamps an id of its own finds none.
pub open spec fn rate_for(
    slot: (Device, SlotState, u8, Option<Sample>),
    counted: Option<Seq<(u8, Single)>>,
    before: Seq<(Device, SlotState, Single, Single)>,
) -> Single {
    match counted {
        Some(rates) => rate_among(rates, slot.2, rates.len()),
        None => rate_among(shown_rates(before), slot.2, before.len()),
    }
}

/// How a slot is shown: under its role, with its age and rate.
pub open spec fn shown(
    slot: (Device, SlotState, u8, Option<Sample>),
    age: Single,
    rate: Single,
) -> (Device, SlotState, Single, Single) {
    (slot.0, slot.1, age, rate)
}

/// The rates, where any are counted now.
pub open spec fn counted_view(rates: Option<Vec<(u8, Single)>>) -> Option<Seq<(u8, Single)>> {
    match rates {
        Some(r) => Some(r@),
        None => None,
    }
}

/// The rates that slots were shown with, by role id.
pub fn kept_rates(slots: &Vec<(Device, SlotState, Single, Single)>) -> (r: Vec<(u8, Single)>)
    ensures
        r@ == shown_rates(slots@),
{
    let mut out: Vec<(u8, Single)> = Vec::new();
    let mut i: usize = 0;
    while i < slots.len()
        invariant
            i <= slots.len(),
            out@ =~= shown_rates(slots@).take(i as int),
        decreases slots.len() - i,
    {
        let (d, _, _, rate) = slots[i];
        out.push((d.id(), rate));
        i = i + 1;
    }
    proof {
        assert(out@ =~= shown_rates(slots@));
    }
    out
}

fn rate_of(rates: &Vec<(u8, Single)>, src: u8) -> (r: Single)
    ensures
        r == rate_among(rates@, src, rates@.len()),
{
    let mut n: usize = rates.len();
    while n > 0 && rates[n - 1].0 != src
        invariant
            n <= rates.len(),
            rate_among(rates@, src, rates@.len()) == rate_among(rates@, src, n as nat),
        decreases n,
    {
        n = n - 1;
    }
    if n == 0 {
        Single { bits: 0 }
    } else {
        rates[n - 1].1
    }
}

/// Enter an event: the newest eight are kept.
pub fn push_event(events: &mut Vec<String>, msg: String)
    ensures
        crate::monitor::texts(final(events)@) == newest(
            crate::monitor::texts(old(events)@).push(msg@),
        ),
{
    let ghost all = crate::monitor::texts(old(events)@).push(msg@);
    events.push(msg);
    let ghost full = events@;
    proof {
        assert(crate::monitor::texts(full) =~= all);
        assert(full.skip(0) =~= full);
    }
    let n: usize = events.len();
    let mut gone: usize = 0;
    while events.len() > EVENTS
        invariant
            n == full.len(),
            gone <= n,
            events@ == full.skip(gone as int),
            gone == 0 || gone <= n - EVENTS,
        decreases events@.len(),
    {
        let _old = events.remove(0);
        proof {
            assert(full.skip(gone as int).remove(0) =~= full.skip(gone + 1));
        }
        gone = gone + 1;
    }
    proof {
        assert(crate::monitor::texts(full.skip(gone as int)) =~= all.skip(gone as int));
        assert(all.skip(0) =~= all);
    }
}

impl ServiceView {
    /// Nothing was seen yet.
    pub open spec fn fresh(&self) -> bool {
        &&& self.live@.len() == 0
        &&& self.sep is None
        &&& self.slots@.len() == 0
        &&& self.unknown_sources@.len() == 0
        &&& self.emitted == 0
        &&& self.n_transforms == 0
        &&& self.jobs@.len() == 0
        &&& self.bridges@.len() == 0
        &&& !self.drifted
        &&& self.events@.len() == 0
        &&& self.error is None
    }

    /// Nothing seen yet.
    pub fn new() -> (r: ServiceView)
        ensures
            r.fresh(),
    {
        ServiceView {
            live: Vec::new(),
            sep: None,
            slots: Vec::new(),
            unknown_sources: Vec::new(),
            emitted: 0,
            n_transforms: 0,
            jobs: Vec::new(),
            bridges: Vec::new(),
            drifted: false,
            events: Vec::new(),
            error: None,
        }
    }

    /// Publish what was seen: the live pucks and their separation, every slot
    /// under its role with its age and rate, the sources that nobody claims, and
    /// what was sent. The rates are those counted of each source; where none are
    /// counted now, a puck that stamps its role keeps the rate it was shown with.
    /// Events, bridges, drift and errors stay as they are.
    pub fn publish(
        &mut self,
        live: Vec<(Device, [Single; 3])>,
        sep: Option<Single>,
        slots: &Vec<(Device, SlotState, u8, Option<Sample>)>,
        ages: &Vec<Single>,
        counted: Option<Vec<(u8, Single)>>,
        unknown: Vec<u8>,
        emitted: u64,
        n_transforms: usize,
        jobs: Vec<Job>,
    )
        requires
            ages@.len() == slots@.len(),
        ensures
            final(self).slots@.len() == slots@.len(),
            forall|i: int|
                0 <= i < slots@.len() ==> #[trigger] final(self).slots@[i] == shown(
                    slots@[i],
                    ages@[i],
                    rate_for(slots@[i], counted_view(counted), old(self).slots@),
                ),
            *final(self) == (ServiceView {
                live,
                sep,
                slots: final(self).slots,
                unknown_sources: unknown,
                emitted,
                n_transforms,
                jobs,
                ..*old(self)
            }),
    {
        let ghost told = counted_view(counted);
        let rates: Vec<(u8, Single)> = match counted {
            Some(r) => r,
            None => kept_rates(&self.slots),
        };
        let mut out: Vec<(Device, SlotState, Single, Single)> = Vec::new();
        let mut i: usize = 0;
        while i < slots.len()
            invariant
                i <= slots.len(),
                ages@.len() == slots@.len(),
                out@.len() == i,
                *self == *old(self),
                told is None ==> rates@ == shown_rates(self.slots@),
                told is Some ==> told == Some(rates@),
                forall|k: int|
                    0 <= k < i ==> #[trigger] out@[k] == shown(
                        slots@[k],
                        ages@[k],
                        rate_for(slots@[k], told, old(self).slots@),
                    ),
            decreases slots.len() - i,
        {
            let (d, st, src, _) = slots[i];
            out.push((d, st, ages[i], rate_of(&rates, src)));
            i = i + 1;
        }
        self.live = live;
        self.sep = sep;
        self.slots = out;
        self.unknown_sources = unknown;
        self.emitted = emitted;
        self.n_transforms = n_transforms;
        self.jobs = jobs;
    }

    /// Flag drift: whether it was not flagged before, and so is to be told.
    pub fn flag_drift(&mut self) -> (r: bool)
        ensures
            r == !old(self).drifted,
            *final(self) == (ServiceView { drifted: true, ..*old(self) }),
    {
        let first = !self.drifted;
        self.drifted = true;
        first
    }

    /// Show that a bridge is being solved at once, before the sweep ends.
    pub fn show_solving(&mut self, ip: &str)
        ensures
            final(self).bridges@ == marked(old(self).bridges@, ip@, BridgeState::Solving, 0),
            *final(self) == (ServiceView { bridges: final(self).bridges, ..*old(self) }),
    {
        let mut i: usize = 0;
        while i < self.bridges.len()
            invariant
                i <= self.bridges.len(),
                *self == *old(self),
                marked(old(self).bridges@, ip@, BridgeState::Solving, 0) == marked(
                    old(self).bridges@,
                    ip@,
                    BridgeState::Solving,
                    i as nat,
                ),
            decreases self.bridges.len() - i,
        {
            if text::same(self.bridges[i].0.as_str(), ip) {
                self.bridges[i].1 = BridgeState::Solving;
                proof {
                    assert(self.bridges@ =~= marked(
                        old(self).bridges@,
                        ip@,
                        BridgeState::Solving,
                        i as nat,
                    ));
                }
                return;
            }
            i = i + 1;
        }
    }
}

/// Ask for a check of the bridge of the puck at `ip`: whether none was asked for
/// yet.
pub fn ask_check(asked: &mut Book<()>, ip: &str) -> (r: bool)
    requires
        old(asked).wf(),
    ensures
        final(asked).wf(),
        r == !old(asked)@.contains_key(ip@),
        final(asked)@ == old(asked)@.insert(ip@, ()),
{
    let first = !asked.contains(ip);
    asked.insert(ip, ());
    first
}

/// A path with a name below it.
pub open spec fn below(dir: Seq<char>, name: Seq<char>) -> Seq<char> {
    if dir.len() == 0 || dir.last() == '/' {
        dir + name
    } else {
        dir + "/"@ + name
    }
}

/// Where a puck's map is archived before it is overwritten: where the operator
/// says, else under the home directory, else here.
pub fn map_backup_dir(given: Option<&str>, home: Option<&str>, name: &str) -> (r: String)
    ensures
        r@ == (match (given, home) {
            (Some(dir), _) => dir@,
            (None, Some(h)) => below(h@, name@),
            (None, None) => name@,
        }),
{
    match given {
        Some(dir) => dir.to_string(),
        None => match home {
            Some(h) => {
                let chars = text::chars_of(h);
                if chars.len() == 0 || chars[chars.len() - 1] == '/' {
                    text::glue(h, name)
                } else {
                    text::glue3(h, "/", name)
                }
            },
            None => name.to_string(),
        },
    }
}

/// Why the service did not start: its address could not be listened on.
pub fn listen_refusal(listen: &str, why: &str) -> (r: String)
    ensures
        r@ == "cannot listen on "@ + listen@ + ": "@ + why@,
{
    let mut s = text::glue3("cannot listen on ", listen, ": ");
    s.append(why);
    s
}

/// Why nothing is emitted: the output could not be opened.
pub fn output_refusal(out: &str, why: &str) -> (r: String)
    ensures
        r@ == "output "@ + out@ + ": "@ + why@,
{
    let mut s = text::glue3("output ", out, ": ");
    s.append(why);
    s
}

/// The event just entered is kept, and never more than eight are.
pub proof fn the_latest_event_is_kept(events: Seq<Seq<char>>, msg: Seq<char>)
    ensures
        newest(events.push(msg)).len() <= EVENTS,
        newest(events.push(msg)).len() > 0,
        newest(events.push(msg)).last() == msg,
{
}

/// A rate is shown until the next are counted: a role that was shown once is shown
/// with the same rate again, where its puck stamps the role.
pub proof fn a_rate_is_shown_until_the_next(
    slot: (Device, SlotState, u8, Option<Sample>),
    before: Seq<(Device, SlotState, Single, Single)>,
    k: int,
)
    requires
        0 <= k < before.len(),
        before[k].0 == slot.0,
        slot.2 == slot.0.code(),
        forall|i: int| k < i < before.len() ==> (#[trigger] before[i]).0.code() != slot.2,
    ensures
        rate_for(slot, None, before) == before[k].3,
{
    lemma_rate_among(shown_rates(before), slot.2, k, before.len());
}

proof fn lemma_rate_among(rates: Seq<(u8, Single)>, src: u8, k: int, n: nat)
    requires
        0 <= k < n <= rates.len(),
        rates[k].0 == src,
        forall|i: int| k < i < n ==> (#[trigger] rates[i]).0 != src,
    ensures
        rate_among(rates, src, n) == rates[k].1,
    decreases n,
{
    if k + 1 < n {
        assert(rates[n - 1].0 != src);
        lemma_rate_among(rates, src, k, (n - 1) as nat);
    }
}

/// The newest eight events are kept, in their order; fewer are all kept.
pub proof fn the_newest_events_are_kept_in_order(events: Seq<Seq<char>>, i: int)
    ensures
        events.len() <= 8 ==> newest(events) == events,
        events.len() > 8 ==> newest(events).len() == 8 && (0 <= i < 8 ==> newest(events)[i]
            == events[events.len() - 8 + i]),
{
}

/// Showing a state shows it of the puck it is about: of the first entry at that
/// address, and of nothing else.
pub proof fn a_state_is_shown_of_its_puck(
    bridges: Seq<(String, BridgeState, Single)>,
    ip: Seq<char>,
    state: BridgeState,
    from: nat,
    i: int,
)
    requires
        0 <= i < bridges.len(),
    ensures
        ({
            let after = marked(bridges, ip, state, from);
            let first = from <= i && bridges[i].0@ == ip && forall|k: int|
                from <= k < i ==> (#[trigger] bridges[k]).0@ != ip;
            &&& after.len() == bridges.len()
            &&& first ==> after[i] == (bridges[i].0, state, bridges[i].2)
            &&& !first ==> after[i] == bridges[i]
        }),
    decreases bridges.len() - from,
{
    if from < bridges.len() && bridges[from as int].0@ != ip {
        a_state_is_shown_of_its_puck(bridges, ip, state, from + 1, i);
    }
}

} // verus!
