//! The bridge watchdog.
//!
//! A puck's LOCAL to world bridge is verifiable for the price of one pose
//! reading: predict the world pose through the bridge and compare. When the
//! check fails, or no bridge exists yet, the watchdog waits for the puck to be
//! still, which its own stream shows, and has the bridge solved again.
//!
//! One sweep over a puck is: [`PuckWatch::ask`] what was asked of it since the last,
//! [`PuckWatch::take_in`] its newest sample, then [`PuckWatch::judge`] its motion,
//! which says what to do; then [`PuckWatch::solved`] or [`PuckWatch::checked`] with
//! how that went. What is asked of a puck that is not heard from, or that moves, is
//! kept for the next opportunity. Speeds and distances are measured by the caller.

use crate::book::Book;
use crate::config::{BridgeEntry, PuckCfg, PuckView};
use crate::ieee::{greatest, is_greatest, less, Real, Single};
use crate::ingest::Sample;
use crate::jobs::since;
use crate::mpt1::zero;
use crate::text;
use std::collections::VecDeque;
use vstd::prelude::*;

verus! {

/// 0.05 m/s.
pub const STILL_VEL: u32 = 0x3D4C_CCCD;

/// 0.15 rad/s.
pub const STILL_ANGVEL: u32 = 0x3E19_999A;

/// 0.02 m over the span.
pub const STILL_POS_DELTA: u32 = 0x3CA3_D70A;

/// How long a puck has to be still, in nanoseconds.
pub const STILL_SPAN: u64 = 1_500_000_000;

/// How long positions are kept, in nanoseconds. This must exceed the span, or
/// the oldest position is evicted just before it is old enough to prove it.
pub const STILL_RETAIN: u64 = 3_000_000_000;

/// How often a bridge is checked, in nanoseconds.
pub const BRIDGE_CHECK_EVERY: u64 = 4_000_000_000;

/// 0.15 m.
pub const BRIDGE_POS_TOL: u32 = 0x3E19_999A;

/// 3.0 degrees.
pub const BRIDGE_YAW_TOL: u32 = 0x4040_0000;

/// 0.5 m: past this the world frame jumped.
pub const FRAME_JUMP_POS_M: u32 = 0x3F00_0000;

/// 10.0 degrees: past this the world frame jumped.
pub const FRAME_JUMP_YAW_DEG: u32 = 0x4120_0000;

/// 0.5 degrees: a wider spread means that the puck moved while it was solved.
pub const BRIDGE_MAX_SPREAD_DEG: u32 = 0x3F00_0000;

/// 0.3 m/s: slow enough for a check that cannot wait.
pub const SLOW_VEL: u32 = 0x3E99_999A;

/// 0.5 rad/s: slow enough for a check that cannot wait.
pub const SLOW_ANGVEL: u32 = 0x3F00_0000;

/// A sample older than this, in nanoseconds, says nothing about the puck now.
pub const FRESH: u64 = 300_000_000;

/// A sample older than this, in nanoseconds, is not paired with a world pose.
pub const PAIRABLE: u64 = 120_000_000;

#[derive(Debug, Clone, Copy, PartialEq, Eq, Structural)]
pub enum BridgeState {
    Missing,
    WaitingStill,
    Solving,
    Good,
    /// Consistency checks are failing: a re-solve is pending stillness.
    Suspect,
}

/// A bridge with that state and count of failed checks is to be solved again.
pub open spec fn to_resolve(state: BridgeState, suspect: u32) -> bool {
    state is Missing || state is Suspect || state is WaitingStill || suspect >= 2
}

/// Does this puck need its bridge solved again?
///
/// Both inputs matter, and they are set by different paths: drift counts failed
/// checks and turns the state at two, while a frame jump turns the state at once
/// and leaves the count at zero.
pub fn needs_resolve(state: BridgeState, suspect: u32) -> (r: bool)
    ensures
        r == to_resolve(state, suspect),
{
    match state {
        BridgeState::Missing => true,
        BridgeState::Suspect => true,
        BridgeState::WaitingStill => true,
        _ => suspect >= 2,
    }
}

/// What the watchdog knows of one puck.
#[derive(Debug)]
pub struct PuckWatch {
    pub ip: String,
    /// The byte this puck stamps, not its role: the bridge belongs to the device,
    /// not to the slot it publishes under.
    pub src: u8,
    pub history: VecDeque<(u64, [Single; 3])>,
    pub suspect: u32,
    /// A check was asked for and not made yet.
    pub asked: bool,
    pub last_check: Option<u64>,
    pub state: BridgeState,
    pub yaw_deg: Single,
}

/// What a watch says.
#[verifier::ext_equal]
pub ghost struct WatchView {
    pub ip: Seq<char>,
    pub src: u8,
    pub history: Seq<(u64, [Single; 3])>,
    pub suspect: u32,
    pub asked: bool,
    pub last_check: Option<u64>,
    pub state: BridgeState,
    pub yaw_deg: Single,
}

impl View for PuckWatch {
    type V = WatchView;

    open spec fn view(&self) -> WatchView {
        WatchView {
            ip: self.ip@,
            src: self.src,
            history: self.history@,
            suspect: self.suspect,
            asked: self.asked,
            last_check: self.last_check,
            state: self.state,
            yaw_deg: self.yaw_deg,
        }
    }
}

/// What a list of watches says.
pub open spec fn watch_views(s: Seq<PuckWatch>) -> Seq<WatchView> {
    s.map_values(|w: PuckWatch| w@)
}

/// What the watchdog is to do about a puck.
#[derive(Debug, Clone, Copy, PartialEq, Eq, Structural)]
pub enum Order {
    /// Nothing.
    Rest,
    /// Pair world poses with the stream and solve the bridge.
    Solve,
    /// Compare one world pose with the one the bridge predicts.
    Check,
}

/// What a solve came to.
#[derive(Debug, Clone, Copy, PartialEq, Eq, Structural)]
pub enum SolveOutcome {
    /// The bridge is to be stored and applied.
    Accepted,
    /// The candidates disagree too far: the puck was moving.
    TooLoose,
    /// There were not enough pairs.
    Nothing,
}

/// What a check came to.
#[derive(Debug, Clone, Copy, PartialEq, Eq, Structural)]
pub enum CheckOutcome {
    /// Nothing to report.
    Quiet,
    /// The check failed twice: the bridge is stale.
    Stale,
    /// The world frame jumped: the bridge describes a frame that no longer
    /// exists.
    Jumped,
}

/// How many positions at the front are too old to keep, from `from` on.
pub open spec fn expired(history: Seq<(u64, [Single; 3])>, now: u64, from: nat) -> nat
    decreases history.len() - from,
{
    if from < history.len() && since(history[from as int].0, now) > STILL_RETAIN {
        expired(history, now, from + 1)
    } else {
        from
    }
}

impl WatchView {
    /// The watch once a solve or a check was asked of it.
    pub open spec fn asking(self, force: bool, verify: bool) -> WatchView {
        WatchView {
            suspect: if force {
                2
            } else {
                self.suspect
            },
            asked: self.asked || verify,
            ..self
        }
    }

    /// The watch with another position in its history.
    pub open spec fn joined(self, s: Sample, now: u64) -> WatchView {
        let longer = self.history.push((now, s.packet.pose.p));
        WatchView { history: longer.skip(expired(longer, now, 0) as int), ..self }
    }

    /// The history reaches back over the whole span.
    pub open spec fn span_shown(self, now: u64) -> bool {
        self.history.len() > 0 && since(self.history[0].0, now) >= STILL_SPAN
    }

    /// The puck is still, given its speeds and how far it wandered.
    pub open spec fn is_still(self, vel: Single, ang: Single, wander: Single, now: u64) -> bool {
        self.span_shown(now) && vel.undercuts(STILL_VEL) && ang.undercuts(STILL_ANGVEL)
            && wander.undercuts(STILL_POS_DELTA)
    }

    /// A check is due.
    pub open spec fn check_due(self, now: u64) -> bool {
        match self.last_check {
            Some(t) => since(t, now) >= BRIDGE_CHECK_EVERY,
            None => true,
        }
    }

    /// The watch after its motion was judged, and what is to be done. A check that
    /// was asked for does not wait for perfect stillness.
    pub open spec fn judged(self, vel: Single, ang: Single, wander: Single, now: u64) -> (
        WatchView,
        Order,
    ) {
        let still = self.is_still(vel, ang, wander, now);
        if to_resolve(self.state, self.suspect) {
            if still {
                (WatchView { state: BridgeState::Solving, ..self }, Order::Solve)
            } else if self.state is Missing {
                (self, Order::Rest)
            } else {
                (WatchView { state: BridgeState::WaitingStill, ..self }, Order::Rest)
            }
        } else if self.state is Good && ((still && self.check_due(now)) || (self.asked
            && vel.undercuts(SLOW_VEL) && ang.undercuts(SLOW_ANGVEL))) {
            (WatchView { asked: false, last_check: Some(now), ..self }, Order::Check)
        } else {
            (self, Order::Rest)
        }
    }

    /// The watch after a solve with that spread and yaw, or without a solution. A
    /// bridge just solved needs no check.
    pub open spec fn after_solve(self, solution: Option<(Single, Single)>) -> (
        WatchView,
        SolveOutcome,
    ) {
        match solution {
            Some((spread, yaw_deg)) => if spread.undercuts(BRIDGE_MAX_SPREAD_DEG) {
                (
                    WatchView {
                        state: BridgeState::Good,
                        yaw_deg,
                        suspect: 0,
                        asked: false,
                        ..self
                    },
                    SolveOutcome::Accepted,
                )
            } else {
                (WatchView { state: BridgeState::WaitingStill, ..self }, SolveOutcome::TooLoose)
            },
            None => (
                WatchView { state: BridgeState::WaitingStill, ..self },
                SolveOutcome::Nothing,
            ),
        }
    }

    /// The watch after a check that found the prediction off by `dp` metres and
    /// `dyaw` degrees, or that could not be made.
    pub open spec fn after_check(self, off: Option<(Single, Single)>) -> (
        WatchView,
        CheckOutcome,
    ) {
        match off {
            None => (self, CheckOutcome::Quiet),
            Some((dp, dyaw)) => if dp.exceeds(FRAME_JUMP_POS_M) || dyaw.exceeds(
                FRAME_JUMP_YAW_DEG,
            ) {
                (
                    WatchView { state: BridgeState::Suspect, suspect: 0, ..self },
                    CheckOutcome::Jumped,
                )
            } else if dp.exceeds(BRIDGE_POS_TOL) || dyaw.exceeds(BRIDGE_YAW_TOL) {
                let suspect = (self.suspect + 1) as u32;
                if suspect >= 2 {
                    (
                        WatchView { state: BridgeState::Suspect, suspect, ..self },
                        CheckOutcome::Stale,
                    )
                } else {
                    (WatchView { suspect, ..self }, CheckOutcome::Quiet)
                }
            } else {
                (WatchView { suspect: 0, ..self }, CheckOutcome::Quiet)
            },
        }
    }
}

/// A sample can be paired with a world pose read just before.
pub open spec fn can_pair(sample: Option<Sample>, now: u64) -> bool {
    match sample {
        Some(s) => s.packet.valid && since(s.arrived, now) <= PAIRABLE,
        None => false,
    }
}

/// A sample says something about the puck now.
pub open spec fn telling(sample: Option<Sample>, now: u64) -> bool {
    match sample {
        Some(s) => s.packet.valid && since(s.arrived, now) <= FRESH,
        None => false,
    }
}

/// Whether a sample can be paired with a world pose read just before.
pub fn pairable(sample: Option<Sample>, now: u64) -> (r: bool)
    ensures
        r == can_pair(sample, now),
{
    match sample {
        Some(s) => s.packet.valid && s.age(now) <= PAIRABLE,
        None => false,
    }
}

impl PuckWatch {
    /// Ask for a solve at the next still moment, with `force`, and for a check at
    /// the next opportunity, with `verify`.
    pub fn ask(&mut self, force: bool, verify: bool)
        ensures
            final(self)@ == old(self)@.asking(force, verify),
    {
        if force {
            self.suspect = 2;
        }
        if verify {
            self.asked = true;
        }
    }

    /// Take the puck's newest sample in, where it says something about the puck
    /// now; otherwise the puck is passed over in this sweep.
    pub fn take_in(&mut self, sample: Option<Sample>, now: u64) -> (r: bool)
        ensures
            r == telling(sample, now),
            final(self)@ == (if r {
                old(self)@.joined(sample->0, now)
            } else {
                old(self)@
            }),
    {
        let s = match sample {
            None => {
                return false;
            },
            Some(s) => s,
        };
        if !s.packet.valid || s.age(now) > FRESH {
            return false;
        }
        self.history.push_back((now, s.packet.pose.p));
        let ghost longer = self.history@;
        let ghost before = old(self)@;
        let ghost mut k: nat = 0;
        proof {
            assert(longer.skip(0) =~= longer);
        }
        while self.history.len() > 0 && now.saturating_sub(self.history[0].0) > STILL_RETAIN
            invariant
                k <= longer.len(),
                self.history@ == longer.skip(k as int),
                expired(longer, now, 0) == expired(longer, now, k),
                self@ == (WatchView { history: self.history@, ..before }),
            decreases self.history@.len(),
        {
            let _gone = self.history.pop_front();
            proof {
                assert(self.history@ =~= longer.skip(k as int + 1));
                k = k + 1;
            }
        }
        proof {
            if k < longer.len() {
                assert(self.history@[0] == longer[k as int]);
            }
            assert(expired(longer, now, k) == k);
        }
        true
    }

    /// The positions in the history, oldest first.
    pub fn position(&self, i: usize) -> (r: Option<[Single; 3]>)
        ensures
            r == (if i < self@.history.len() {
                Some(self@.history[i as int].1)
            } else {
                None
            }),
    {
        if i < self.history.len() {
            Some(self.history[i].1)
        } else {
            None
        }
    }

    /// Judge the puck's motion: its speeds, and how far each position in the
    /// history is from the newest.
    pub fn judge(
        &mut self,
        vel: Single,
        ang: Single,
        distances: &Vec<Single>,
        now: u64,
    ) -> (r: Order)
        ensures
            exists|wander: Single|
                #![trigger is_greatest(zero(), distances@, wander)]
                is_greatest(zero(), distances@, wander) && !wander.nan() && (final(self)@, r) == old(
                    self,
                )@.judged(
                    vel,
                    ang,
                    wander,
                    now,
                ),
    {
        let ghost before = old(self)@;
        let wander = greatest(Single { bits: 0 }, distances);
        let span = self.history.len() > 0 && now.saturating_sub(self.history[0].0) >= STILL_SPAN;
        let still = span && vel.below(STILL_VEL) && ang.below(STILL_ANGVEL) && wander.below(
            STILL_POS_DELTA,
        );
        proof {
            assert(still == before.is_still(vel, ang, wander, now));
        }
        let order = if needs_resolve(self.state, self.suspect) {
            if still {
                self.state = BridgeState::Solving;
                Order::Solve
            } else {
                if self.state != BridgeState::Missing {
                    self.state = BridgeState::WaitingStill;
                }
                Order::Rest
            }
        } else {
            let due = match self.last_check {
                Some(t) => now.saturating_sub(t) >= BRIDGE_CHECK_EVERY,
                None => true,
            };
            let slow = vel.below(SLOW_VEL) && ang.below(SLOW_ANGVEL);
            if self.state == BridgeState::Good && ((still && due) || (self.asked && slow)) {
                self.asked = false;
                self.last_check = Some(now);
                Order::Check
            } else {
                Order::Rest
            }
        };
        proof {
            assert((self@, order) == before.judged(vel, ang, wander, now));
            assert(is_greatest(zero(), distances@, wander));
        }
        order
    }

    /// Enter how a solve went: its yaw spread and yaw, in degrees.
    pub fn solved(&mut self, solution: Option<(Single, Single)>) -> (r: SolveOutcome)
        ensures
            (final(self)@, r) == old(self)@.after_solve(solution),
    {
        match solution {
            Some((spread, yaw_deg)) => if spread.below(BRIDGE_MAX_SPREAD_DEG) {
                self.state = BridgeState::Good;
                self.yaw_deg = yaw_deg;
                self.suspect = 0;
                self.asked = false;
                SolveOutcome::Accepted
            } else {
                self.state = BridgeState::WaitingStill;
                SolveOutcome::TooLoose
            },
            None => {
                self.state = BridgeState::WaitingStill;
                SolveOutcome::Nothing
            },
        }
    }

    /// Enter how a check went: how far off the prediction was, in metres and
    /// degrees. A frame jump is unambiguous, so it is acted on at first sight.
    pub fn checked(&mut self, off: Option<(Single, Single)>) -> (r: CheckOutcome)
        requires
            old(self)@.suspect < u32::MAX,
        ensures
            (final(self)@, r) == old(self)@.after_check(off),
    {
        match off {
            None => CheckOutcome::Quiet,
            Some((dp, dyaw)) => if dp.above(FRAME_JUMP_POS_M) || dyaw.above(FRAME_JUMP_YAW_DEG) {
                self.state = BridgeState::Suspect;
                self.suspect = 0;
                CheckOutcome::Jumped
            } else if dp.above(BRIDGE_POS_TOL) || dyaw.above(BRIDGE_YAW_TOL) {
                self.suspect = self.suspect + 1;
                if self.suspect >= 2 {
                    self.state = BridgeState::Suspect;
                    CheckOutcome::Stale
                } else {
                    CheckOutcome::Quiet
                }
            } else {
                self.suspect = 0;
                CheckOutcome::Quiet
            },
        }
    }
}

/// A check is only asked for where [`PuckWatch::checked`] can take its outcome.
pub proof fn a_check_can_be_entered(
    w: WatchView,
    vel: Single,
    ang: Single,
    wander: Single,
    now: u64,
)
    requires
        w.judged(vel, ang, wander, now).1 is Check,
    ensures
        w.judged(vel, ang, wander, now).0.suspect < 2,
        w.judged(vel, ang, wander, now).0.state is Good,
{
}

/// A bridge is solved only while the puck is still, and only where it needs it.
pub proof fn only_a_still_puck_is_bridged(
    w: WatchView,
    vel: Single,
    ang: Single,
    wander: Single,
    now: u64,
)
    ensures
        w.judged(vel, ang, wander, now).1 is Solve <==> w.is_still(
            vel,
            ang,
            wander,
            now,
        ) && to_resolve(w.state, w.suspect),
{
}

/// The state a watch is in between sweeps: not in the middle of a solve.
pub open spec fn settled(w: WatchView) -> bool {
    !(w.state is Solving)
}

/// No watch is ever stranded: whatever a sweep does, the watch ends settled, and
/// a settled watch that is not good is one that the next still moment solves.
pub proof fn no_watch_is_stranded(
    w: WatchView,
    vel: Single,
    ang: Single,
    wander: Single,
    now: u64,
    solution: Option<(Single, Single)>,
    off: Option<(Single, Single)>,
)
    requires
        settled(w),
    ensures
        ({
            let (j, order) = w.judged(vel, ang, wander, now);
            let end = match order {
                Order::Rest => j,
                Order::Solve => j.after_solve(solution).0,
                Order::Check => j.after_check(off).0,
            };
            &&& settled(end)
            &&& end.state is Good || to_resolve(end.state, end.suspect)
        }),
{
}

/// One sweep over a puck, with what was asked since the last, and, where its sample
/// says something about it now, that sample, its motion, and how a solve or a check
/// would go.
pub ghost struct Sweep {
    pub force: bool,
    pub verify: bool,
    pub seen: Option<(Sample, Single, Single, Single)>,
    pub now: u64,
    pub solution: Option<(Single, Single)>,
    pub off: Option<(Single, Single)>,
}

impl WatchView {
    /// The watch after a sweep, and what was done in it.
    pub open spec fn swept(self, s: Sweep) -> (WatchView, Order) {
        let w = self.asking(s.force, s.verify);
        match s.seen {
            None => (w, Order::Rest),
            Some((sample, vel, ang, wander)) => {
                let (j, order) = w.joined(sample, s.now).judged(vel, ang, wander, s.now);
                (
                    match order {
                        Order::Rest => j,
                        Order::Solve => j.after_solve(s.solution).0,
                        Order::Check => j.after_check(s.off).0,
                    },
                    order,
                )
            },
        }
    }
}

/// A solve that was asked for is made at the next still moment: whatever sweeps do
/// in between, whether the puck is heard from or moves, it stays due until a
/// solution is accepted.
pub proof fn a_forced_solve_stays_due(w: WatchView, s: Sweep)
    requires
        settled(w),
    ensures
        ({
            let due = |x: WatchView| settled(x) && to_resolve(x.state, x.suspect);
            let (end, order) = w.swept(s);
            &&& (s.force || due(w)) ==> due(end) || (order is Solve && end.state is Good
                && end.suspect == 0)
            &&& (s.force || due(w)) && (s.seen matches Some((sample, vel, ang, wander)) && w.asking(
                s.force,
                s.verify,
            ).joined(sample, s.now).is_still(vel, ang, wander, s.now)) ==> order is Solve
        }),
{
}

/// A check that was asked for is made at the next opportunity: it stays asked for
/// until it is made, or until the bridge is solved anew.
pub proof fn an_asked_check_is_kept(w: WatchView, s: Sweep)
    requires
        w.asked || s.verify,
    ensures
        ({
            let (end, order) = w.swept(s);
            end.asked || order is Check || (order is Solve && end.state is Good)
        }),
        ({
            let open = w.asking(s.force, s.verify);
            open.state is Good && open.suspect < 2 && (s.seen matches Some((_, vel, ang, _))
                && vel.undercuts(SLOW_VEL) && ang.undercuts(SLOW_ANGVEL)) ==> w.swept(s).1 is Check
        }),
{
}

/// A jump of the world frame leads to a re-solve, though no check was counted.
pub proof fn a_jump_is_resolved(w: WatchView, dp: Single, dyaw: Single)
    requires
        dp.exceeds(FRAME_JUMP_POS_M) || dyaw.exceeds(FRAME_JUMP_YAW_DEG),
    ensures
        w.after_check(Some((dp, dyaw))).1 is Jumped,
        to_resolve(w.after_check(Some((dp, dyaw))).0.state, 0),
{
}

/// Positions are kept long enough to prove the span: with a position in the
/// history that is at least the span old and not past retention, and none older
/// than that, the span is shown after the next sample.
pub proof fn retention_lets_the_span_be_shown(w: WatchView, s: Sample, now: u64)
    requires
        w.history.len() > 0,
        STILL_SPAN <= since(w.history[0].0, now) <= STILL_RETAIN,
    ensures
        w.joined(s, now).span_shown(now),
        STILL_SPAN < STILL_RETAIN,
{
    let longer = w.history.push((now, s.packet.pose.p));
    assert(expired(longer, now, 0) == 0);
    assert(longer.skip(0) =~= longer);
}

/// A fresh watch on a puck, whose bridge is good if it has one.
pub open spec fn fresh_watch(p: PuckView, bridges: Map<Seq<char>, BridgeEntry>) -> WatchView {
    WatchView {
        ip: p.ip,
        src: p.stamp(),
        history: Seq::empty(),
        suspect: 0,
        asked: false,
        last_check: None,
        state: if bridges.contains_key(p.ip) {
            BridgeState::Good
        } else {
            BridgeState::Missing
        },
        yaw_deg: if bridges.contains_key(p.ip) {
            bridges[p.ip].yaw_deg
        } else {
            not_known()
        },
    }
}

/// "Not a number", for a yaw that is not known.
pub open spec fn not_known() -> Single {
    Single { bits: 0x7FC0_0000 }
}

/// The first watch, from `from` on, on the puck at `ip`.
pub open spec fn watch_at(watches: Seq<WatchView>, ip: Seq<char>, from: nat) -> Option<nat>
    decreases watches.len() - from,
{
    if from >= watches.len() {
        None
    } else if watches[from as int].ip == ip {
        Some(from)
    } else {
        watch_at(watches, ip, from + 1)
    }
}

/// A list with one element taken out, the last one moved into its place.
pub open spec fn swapped_out<T>(s: Seq<T>, i: int) -> Seq<T> {
    if i + 1 == s.len() {
        s.drop_last()
    } else {
        s.update(i, s.last()).drop_last()
    }
}

/// The watch that goes on for a puck, and the watches that are left. A puck that
/// only changed its role keeps streaming the same bytes, so its history stays
/// valid; only another source byte makes the history another device's.
pub open spec fn taken_over(
    watches: Seq<WatchView>,
    p: PuckView,
    bridges: Map<Seq<char>, BridgeEntry>,
) -> (WatchView, Seq<WatchView>) {
    match watch_at(watches, p.ip, 0) {
        Some(i) => {
            let w = watches[i as int];
            (
                if w.src == p.stamp() {
                    w
                } else {
                    WatchView { src: p.stamp(), history: Seq::empty(), ..w }
                },
                swapped_out(watches, i as int),
            )
        },
        None => (fresh_watch(p, bridges), watches),
    }
}

/// The watches for a roster, in its order, and those of pucks it no longer has.
pub open spec fn rekeyed(
    watches: Seq<WatchView>,
    pucks: Seq<PuckView>,
    bridges: Map<Seq<char>, BridgeEntry>,
) -> (Seq<WatchView>, Seq<WatchView>)
    decreases pucks.len(),
{
    if pucks.len() == 0 {
        (Seq::empty(), watches)
    } else {
        let (done, left) = rekeyed(watches, pucks.drop_last(), bridges);
        let (w, rest) = taken_over(left, pucks.last(), bridges);
        (done.push(w), rest)
    }
}

fn find_watch(watches: &Vec<PuckWatch>, ip: &str) -> (r: Option<usize>)
    ensures
        match r {
            Some(i) => watch_at(watch_views(watches@), ip@, 0) == Some(i as nat) && i
                < watches@.len(),
            None => watch_at(watch_views(watches@), ip@, 0) is None,
        },
{
    let mut i: usize = 0;
    while i < watches.len()
        invariant
            i <= watches.len(),
            watch_at(watch_views(watches@), ip@, 0) == watch_at(
                watch_views(watches@),
                ip@,
                i as nat,
            ),
        decreases watches.len() - i,
    {
        if text::same(watches[i].ip.as_str(), ip) {
            return Some(i);
        }
        i = i + 1;
    }
    None
}

/// The watches for a changed roster. What is known of a puck is kept by its
/// address.
pub fn rekey(watches: Vec<PuckWatch>, pucks: &[PuckCfg], bridges: &Book<BridgeEntry>) -> (r: Vec<
    PuckWatch,
>)
    requires
        bridges.wf(),
    ensures
        watch_views(r@) == rekeyed(
            watch_views(watches@),
            crate::config::roster_view(pucks@),
            bridges@,
        ).0,
{
    let ghost first = watch_views(watches@);
    let ghost all = crate::config::roster_view(pucks@);
    let mut left: Vec<PuckWatch> = watches;
    let mut out: Vec<PuckWatch> = Vec::new();
    let mut i: usize = 0;
    proof {
        assert(all.take(0) =~= Seq::<PuckView>::empty());
        assert(watch_views(out@) =~= Seq::<WatchView>::empty());
    }
    while i < pucks.len()
        invariant
            i <= pucks.len(),
            all == crate::config::roster_view(pucks@),
            bridges.wf(),
            (watch_views(out@), watch_views(left@)) == rekeyed(first, all.take(i as int), bridges@),
        decreases pucks.len() - i,
    {
        let p = &pucks[i];
        let ghost done = watch_views(out@);
        let ghost before = watch_views(left@);
        proof {
            assert(all.take(i + 1).drop_last() =~= all.take(i as int));
            assert(all.take(i + 1).last() == p@);
        }
        let src: u8 = p.source();
        let w = match find_watch(&left, p.ip.as_str()) {
            Some(k) => {
                let ghost was = left@;
                let mut w = left.swap_remove(k);
                proof {
                    assert(w@ == before[k as int]);
                    assert(watch_views(left@) =~= swapped_out(before, k as int));
                }
                if w.src != src {
                    w.src = src;
                    w.history.clear();
                }
                w
            },
            None => {
                let (state, yaw_deg) = match bridges.get(p.ip.as_str()) {
                    Some(b) => (BridgeState::Good, b.yaw_deg),
                    None => (BridgeState::Missing, Single { bits: 0x7FC0_0000 }),
                };
                PuckWatch {
                    ip: p.ip.clone(),
                    src,
                    history: VecDeque::new(),
                    suspect: 0,
                    asked: false,
                    last_check: None,
                    state,
                    yaw_deg,
                }
            },
        };
        proof {
            assert(w@ =~= taken_over(before, p@, bridges@).0);
        }
        out.push(w);
        proof {
            assert(watch_views(out@) =~= done.push(w@));
        }
        i = i + 1;
    }
    proof {
        assert(all.take(all.len() as int) =~= all);
    }
    out
}

/// What the watchdog publishes of each puck: its address, its state, its yaw.
pub fn publish_bridge_states(watches: &Vec<PuckWatch>) -> (r: Vec<(String, BridgeState, Single)>)
    ensures
        r@.len() == watches@.len(),
        forall|i: int|
            0 <= i < r@.len() ==> (#[trigger] r@[i]).0@ == watches@[i]@.ip && r@[i].1
                == watches@[i]@.state && r@[i].2 == watches@[i]@.yaw_deg,
{
    let mut out: Vec<(String, BridgeState, Single)> = Vec::new();
    let mut i: usize = 0;
    while i < watches.len()
        invariant
            i <= watches.len(),
            out@.len() == i,
            forall|k: int|
                0 <= k < i ==> (#[trigger] out@[k]).0@ == watches@[k]@.ip && out@[k].1
                    == watches@[k]@.state && out@[k].2 == watches@[k]@.yaw_deg,
        decreases watches.len() - i,
    {
        out.push((watches[i].ip.clone(), watches[i].state, watches[i].yaw_deg));
        i = i + 1;
    }
    out
}

proof fn lemma_watch_at(watches: Seq<WatchView>, ip: Seq<char>, from: nat)
    ensures
        watch_at(watches, ip, from) matches Some(i) ==> from <= i < watches.len()
            && watches[i as int].ip == ip,
        watch_at(watches, ip, from) is None ==> forall|i: int|
            from <= i < watches.len() ==> (#[trigger] watches[i]).ip != ip,
    decreases watches.len() - from,
{
    if from < watches.len() && watches[from as int].ip != ip {
        lemma_watch_at(watches, ip, from + 1);
    }
}

/// Every puck of the roster is watched, in its order, under the byte it stamps.
pub proof fn every_puck_is_watched(
    watches: Seq<WatchView>,
    pucks: Seq<PuckView>,
    bridges: Map<Seq<char>, BridgeEntry>,
)
    ensures
        rekeyed(watches, pucks, bridges).0.len() == pucks.len(),
        forall|i: int|
            0 <= i < pucks.len() ==> (#[trigger] rekeyed(watches, pucks, bridges).0[i]).ip
                == pucks[i].ip && rekeyed(watches, pucks, bridges).0[i].src == pucks[i].stamp(),
    decreases pucks.len(),
{
    if pucks.len() > 0 {
        every_puck_is_watched(watches, pucks.drop_last(), bridges);
        let (done, left) = rekeyed(watches, pucks.drop_last(), bridges);
        lemma_watch_at(left, pucks.last().ip, 0);
    }
}

/// A role change alone loses nothing of what is known of a puck: the watch goes
/// on as it was where the byte the puck stamps stays the same.
pub proof fn a_role_change_keeps_the_watch(
    watches: Seq<WatchView>,
    p: PuckView,
    bridges: Map<Seq<char>, BridgeEntry>,
)
    requires
        watch_at(watches, p.ip, 0) matches Some(i) && watches[i as int].src == p.stamp(),
    ensures
        taken_over(watches, p, bridges).0 == watches[watch_at(watches, p.ip, 0)->0 as int],
{
}

/// A puck rests: its history reaches back 1.5 s, it is slower than 0.05 m/s and
/// 0.15 rad/s, and it wandered less than 0.02 m.
pub open spec fn rests(w: WatchView, vel: Single, ang: Single, wander: Single, now: u64) -> bool {
    &&& w.history.len() > 0
    &&& w.history[0].0 + 1_500_000_000 <= now
    &&& less(vel, Single { bits: 0x3D4C_CCCD })
    &&& less(ang, Single { bits: 0x3E19_999A })
    &&& less(wander, Single { bits: 0x3CA3_D70A })
}

/// A puck moves slowly: below 0.3 m/s and 0.5 rad/s.
pub open spec fn slow(vel: Single, ang: Single) -> bool {
    less(vel, Single { bits: 0x3E99_999A }) && less(ang, Single { bits: 0x3F00_0000 })
}

/// The last check is at least 4 s ago, or there was none.
pub open spec fn overdue(w: WatchView, now: u64) -> bool {
    w.last_check matches Some(t) ==> t + 4_000_000_000 <= now
}

/// A check found the bridge stale: off by more than 0.15 m or 3 degrees, but by no
/// more than a jump of the frame would take, 0.5 m and 10 degrees.
pub open spec fn off_course(off: Option<(Single, Single)>) -> bool {
    off matches Some((dp, dyaw)) && (less(Single { bits: 0x3E19_999A }, dp) || less(
        Single { bits: 0x4040_0000 },
        dyaw,
    )) && !jumped(off)
}

/// A check found the frame moved: by more than 0.5 m or 10 degrees.
pub open spec fn jumped(off: Option<(Single, Single)>) -> bool {
    off matches Some((dp, dyaw)) && (less(Single { bits: 0x3F00_0000 }, dp) || less(
        Single { bits: 0x4120_0000 },
        dyaw,
    ))
}

/// A good bridge is checked in time: while its puck rests, a check is made as soon
/// as the last is 4 s ago, whether or not one was asked for, and counts from then on.
pub proof fn a_good_bridge_is_checked_in_time(
    w: WatchView,
    vel: Single,
    ang: Single,
    wander: Single,
    now: u64,
)
    requires
        w.state is Good,
        w.suspect < 2,
        rests(w, vel, ang, wander, now),
        overdue(w, now),
    ensures
        w.judged(vel, ang, wander, now).1 is Check,
        w.judged(vel, ang, wander, now).0 == (WatchView {
            last_check: Some(now),
            asked: false,
            ..w
        }),
{
}

/// A puck is disturbed by a check only in time: where its bridge is good, and either
/// it rests and the last check is 4 s ago, or one was asked for and it moves slowly.
pub proof fn a_check_has_its_reason(
    w: WatchView,
    vel: Single,
    ang: Single,
    wander: Single,
    now: u64,
)
    ensures
        w.judged(vel, ang, wander, now).1 is Check <==> w.state is Good && w.suspect < 2 && ((rests(
            w,
            vel,
            ang,
            wander,
            now,
        ) && overdue(w, now)) || (w.asked && slow(vel, ang))),
{
}

/// A bridge that is missing, suspect, awaiting stillness, or that failed two checks
/// is solved as soon as its puck rests, and not before. Until then the watch says
/// that it waits, unless there is no bridge yet.
pub proof fn a_bad_bridge_is_solved_at_rest(
    w: WatchView,
    vel: Single,
    ang: Single,
    wander: Single,
    now: u64,
)
    ensures
        ({
            let bad = w.state is Missing || w.state is Suspect || w.state is WaitingStill
                || w.suspect >= 2;
            let (end, order) = w.judged(vel, ang, wander, now);
            &&& order is Solve <==> bad && rests(w, vel, ang, wander, now)
            &&& order is Solve ==> end.state is Solving
            &&& bad && !(order is Solve) ==> order is Rest && end.state == if w.state is Missing {
                BridgeState::Missing
            } else {
                BridgeState::WaitingStill
            }
            &&& !bad ==> end.state == w.state
        }),
{
}

/// Judging touches nothing of a watch but its state and what it says of checks.
pub proof fn judging_keeps_the_rest(
    w: WatchView,
    vel: Single,
    ang: Single,
    wander: Single,
    now: u64,
)
    ensures
        ({
            let (end, order) = w.judged(vel, ang, wander, now);
            &&& end.ip == w.ip && end.src == w.src && end.history == w.history
            &&& end.suspect == w.suspect && end.yaw_deg == w.yaw_deg
            &&& order is Check ==> end.last_check == Some(now) && !end.asked
            &&& !(order is Check) ==> end.last_check == w.last_check && end.asked == w.asked
        }),
{
}

/// A puck wandered less than a distance exactly where every distance that was
/// measured is less; one that could not be measured is passed over.
pub proof fn wandering_is_the_farthest_distance(
    distances: Seq<Single>,
    wander: Single,
    limit: Single,
)
    requires
        is_greatest(zero(), distances, wander),
        !wander.nan(),
        less(zero(), limit),
    ensures
        less(wander, limit) <==> forall|i: int|
            0 <= i < distances.len() ==> (#[trigger] distances[i]).nan() || less(
                distances[i],
                limit,
            ),
{
    if less(wander, limit) {
        assert forall|i: int| 0 <= i < distances.len() implies (#[trigger] distances[i]).nan()
            || less(distances[i], limit) by {
            assert(!less(wander, distances[i]));
        }
    } else if distances.contains(wander) {
        let i = choose|i: int| 0 <= i < distances.len() && distances[i] == wander;
        assert(distances[i] == wander);
    }
}

/// What a check leads to: a jump makes the bridge suspect at once, two bad checks in
/// a row do, and one good check clears the count. A check that could not be made
/// changes nothing.
pub proof fn a_check_is_taken_for_what_it_found(w: WatchView, off: Option<(Single, Single)>)
    requires
        w.suspect < u32::MAX,
    ensures
        ({
            let (end, what) = w.after_check(off);
            &&& off is None ==> end == w && what is Quiet
            &&& jumped(off) <==> what is Jumped
            &&& jumped(off) ==> end == (WatchView { state: BridgeState::Suspect, suspect: 0, ..w })
            &&& off_course(off) ==> end.suspect == w.suspect + 1
            &&& off_course(off) && w.suspect == 0 ==> what is Quiet && end.state == w.state
            &&& off_course(off) && w.suspect >= 1 ==> what is Stale && end.state is Suspect
            &&& off is Some && !jumped(off) && !off_course(off) ==> what is Quiet && end == (
            WatchView { suspect: 0, ..w })
            &&& end.ip == w.ip && end.src == w.src && end.history == w.history && end.yaw_deg
                == w.yaw_deg && end.last_check == w.last_check && end.asked == w.asked
        }),
{
}

/// A solution is taken where its candidates agree to less than half a degree: then
/// the bridge is good, with the yaw that was solved, and nothing counts against it.
/// Otherwise the watch keeps what it knows and waits for the next still moment.
pub proof fn a_tight_solution_is_taken(w: WatchView, solution: Option<(Single, Single)>)
    ensures
        ({
            let (end, what) = w.after_solve(solution);
            let tight = solution matches Some((spread, _)) && less(
                spread,
                Single { bits: 0x3F00_0000 },
            );
            &&& tight ==> what is Accepted && end.state is Good && end.suspect == 0 && !end.asked
            &&& tight ==> (solution matches Some((_, yaw)) && end.yaw_deg == yaw)
            &&& !tight && solution is Some ==> what is TooLoose
            &&& solution is None ==> what is Nothing
            &&& !tight ==> end == (WatchView { state: BridgeState::WaitingStill, ..w })
            &&& end.ip == w.ip && end.src == w.src && end.history == w.history
                && end.last_check == w.last_check
        }),
{
}

/// Asking adds to what a watch has to do, and takes nothing away: a solve is due at
/// once, and a check stays asked for.
pub proof fn asking_adds_to_a_watch(w: WatchView, force: bool, verify: bool)
    ensures
        force ==> w.asking(force, verify).suspect >= 2,
        !force ==> w.asking(force, verify).suspect == w.suspect,
        w.asking(force, verify).asked <==> w.asked || verify,
        w.asking(force, verify).state == w.state,
        w.asking(force, verify).history == w.history,
        w.asking(force, verify).last_check == w.last_check,
        w.asking(force, verify).ip == w.ip && w.asking(force, verify).src == w.src,
        w.asking(force, verify).yaw_deg == w.yaw_deg,
{
}

/// The newest position joins the history at its end, and positions leave it at the
/// front, exactly as long as the first is more than 3 s old.
pub proof fn positions_are_kept_for_three_seconds(w: WatchView, s: Sample, now: u64)
    ensures
        ({
            let kept = w.joined(s, now).history;
            let gone = w.history.len() + 1 - kept.len();
            &&& 0 <= gone <= w.history.len()
            &&& kept.last() == (now, s.packet.pose.p)
            &&& forall|i: int| 0 <= i < kept.len() - 1 ==> #[trigger] kept[i] == w.history[gone + i]
            &&& forall|i: int|
                0 <= i < gone ==> (#[trigger] w.history[i]).0 + 3_000_000_000 < now
            &&& kept[0].0 + 3_000_000_000 >= now
            &&& w.joined(s, now) == (WatchView { history: kept, ..w })
        }),
{
    let longer = w.history.push((now, s.packet.pose.p));
    lemma_expired(longer, now, 0);
    let k = expired(longer, now, 0);
    if k == longer.len() {
        assert(longer[longer.len() - 1].0 == now);
    }
    let kept = w.joined(s, now).history;
    assert(kept =~= longer.skip(k as int));
    assert(kept.last() == longer.last());
    assert forall|i: int| 0 <= i < k implies (#[trigger] w.history[i]).0 + 3_000_000_000 < now by {
        assert(longer[i] == w.history[i]);
    }
}

proof fn lemma_expired(history: Seq<(u64, [Single; 3])>, now: u64, from: nat)
    requires
        from <= history.len(),
    ensures
        from <= expired(history, now, from) <= history.len(),
        forall|i: int|
            from <= i < expired(history, now, from) ==> (#[trigger] history[i]).0 + 3_000_000_000
                < now,
        expired(history, now, from) < history.len() ==> history[expired(
            history,
            now,
            from,
        ) as int].0 + 3_000_000_000 >= now,
    decreases history.len() - from,
{
    if from < history.len() && since(history[from as int].0, now) > STILL_RETAIN {
        lemma_expired(history, now, from + 1);
    }
}

/// The puck is heard from in that sweep, and rests.
pub open spec fn rests_in(w: WatchView, s: Sweep) -> bool {
    s.seen matches Some((sample, vel, ang, wander)) && rests(
        w.joined(sample, s.now),
        vel,
        ang,
        wander,
        s.now,
    )
}

/// A stale bridge does not stay: while its puck rests, two checks in a row that find
/// it off, at least 4 s apart, lead to a solve in the sweep after, and a solution that
/// agrees makes it good again, with its own yaw.
pub proof fn a_stale_bridge_is_solved_anew(w: WatchView, a: Sweep, b: Sweep, c: Sweep)
    requires
        w.state is Good,
        w.suspect == 0,
        overdue(w, a.now),
        !a.force && !b.force,
        rests_in(w, a),
        off_course(a.off),
        a.now + 4_000_000_000 <= b.now,
        rests_in(w.swept(a).0, b),
        off_course(b.off),
        rests_in(w.swept(a).0.swept(b).0, c),
        c.solution matches Some((spread, _)) && less(spread, Single { bits: 0x3F00_0000 }),
    ensures
        w.swept(a).1 is Check,
        w.swept(a).0.swept(b).1 is Check,
        w.swept(a).0.swept(b).0.swept(c).1 is Solve,
        w.swept(a).0.swept(b).0.swept(c).0.state is Good,
        w.swept(a).0.swept(b).0.swept(c).0.suspect == 0,
        c.solution matches Some((_, yaw)) && w.swept(a).0.swept(b).0.swept(c).0.yaw_deg == yaw,
{
}

/// A bridge that holds is left as it is: while its puck rests, a check that finds it
/// on course leaves it good, and the next is made no sooner than 4 s later unless
/// it is asked for.
pub proof fn a_bridge_that_holds_is_left_alone(w: WatchView, a: Sweep, b: Sweep)
    requires
        w.state is Good,
        w.suspect < 2,
        overdue(w, a.now),
        !a.force && !b.force && !b.verify,
        rests_in(w, a),
        a.off is Some && !off_course(a.off) && !jumped(a.off),
        a.now <= b.now < a.now + 4_000_000_000,
    ensures
        w.swept(a).1 is Check,
        w.swept(a).0.state is Good,
        w.swept(a).0.suspect == 0,
        w.swept(a).0.swept(b).1 is Rest,
        w.swept(a).0.swept(b).0.state is Good,
{
}

/// What a new watch begins with: the bridge that is stored for the puck, if there is
/// one, counts as good until it is checked, which is at once; without one, it is to
/// be solved.
pub proof fn a_new_watch_goes_by_what_is_stored(
    p: PuckView,
    bridges: Map<Seq<char>, BridgeEntry>,
    now: u64,
)
    ensures
        ({
            let w = fresh_watch(p, bridges);
            &&& bridges.contains_key(p.ip) ==> w.state is Good && w.yaw_deg == bridges[p.ip].yaw_deg
            &&& !bridges.contains_key(p.ip) ==> w.state is Missing && w.yaw_deg.nan()
            &&& w.suspect == 0 && !w.asked && w.history.len() == 0
            &&& overdue(w, now)
            &&& w.ip == p.ip && w.src == p.stamp()
        }),
{
    assert(0x7FC0_0000u32 as nat % 0x8000_0000 == 0x7FC0_0000);
}

proof fn lemma_taken_over(
    watches: Seq<WatchView>,
    p: PuckView,
    bridges: Map<Seq<char>, BridgeEntry>,
    w: WatchView,
)
    requires
        w.ip != p.ip,
        watches.contains(w),
    ensures
        taken_over(watches, p, bridges).1.contains(w),
{
    lemma_watch_at(watches, p.ip, 0);
    if let Some(i) = watch_at(watches, p.ip, 0) {
        let j = choose|j: int| 0 <= j < watches.len() && watches[j] == w;
        let out = swapped_out(watches, i as int);
        assert(j != i);
        if i + 1 < watches.len() && j == watches.len() - 1 {
            assert(out[i as int] == w);
        } else {
            assert(out[j] == w);
        }
    }
}

/// Everything in a list taken over from another was in it.
proof fn lemma_left_over(
    watches: Seq<WatchView>,
    pucks: Seq<PuckView>,
    bridges: Map<Seq<char>, BridgeEntry>,
    w: WatchView,
)
    ensures
        rekeyed(watches, pucks, bridges).1.contains(w) ==> watches.contains(w),
        watches.contains(w) && (forall|i: int|
            0 <= i < pucks.len() ==> (#[trigger] pucks[i]).ip != w.ip) ==> rekeyed(
            watches,
            pucks,
            bridges,
        ).1.contains(w),
    decreases pucks.len(),
{
    if pucks.len() > 0 {
        let front = pucks.drop_last();
        lemma_left_over(watches, front, bridges, w);
        let left = rekeyed(watches, front, bridges).1;
        let rest = rekeyed(watches, pucks, bridges).1;
        let p = pucks.last();
        if rest.contains(w) {
            let j = choose|j: int| 0 <= j < rest.len() && rest[j] == w;
            lemma_watch_at(left, p.ip, 0);
            if let Some(i) = watch_at(left, p.ip, 0) {
                assert(rest == swapped_out(left, i as int));
                if i + 1 < left.len() && j == i {
                    assert(left[left.len() - 1] == w);
                } else {
                    assert(left[j] == w);
                }
            } else {
                assert(left[j] == w);
            }
        }
        if watches.contains(w) && (forall|i: int|
            0 <= i < pucks.len() ==> (#[trigger] pucks[i]).ip != w.ip) {
            assert forall|i: int| 0 <= i < front.len() implies (#[trigger] front[i]).ip != w.ip by {
                assert(front[i] == pucks[i]);
            }
            assert(pucks[pucks.len() - 1].ip != w.ip);
            lemma_taken_over(left, p, bridges, w);
        }
    }
}

/// What is known of a puck survives a change of the roster: where addresses are
/// told apart, a puck that was watched is watched on with its state, its count, its
/// checks and its yaw, and with its history where it stamps the same byte; a puck
/// that was not is watched anew.
pub proof fn a_changed_roster_forgets_no_puck(
    watches: Seq<WatchView>,
    pucks: Seq<PuckView>,
    bridges: Map<Seq<char>, BridgeEntry>,
    i: int,
)
    requires
        0 <= i < pucks.len(),
        forall|a: int, b: int|
            0 <= a < b < pucks.len() ==> (#[trigger] pucks[a]).ip != (#[trigger] pucks[b]).ip,
        forall|a: int, b: int|
            0 <= a < b < watches.len() ==> (#[trigger] watches[a]).ip != (#[trigger] watches[b]).ip,
    ensures
        ({
            let now = rekeyed(watches, pucks, bridges).0[i];
            &&& forall|k: int|
                0 <= k < watches.len() && (#[trigger] watches[k]).ip == pucks[i].ip ==> {
                    let was = watches[k];
                    &&& now.state == was.state && now.suspect == was.suspect
                    &&& now.asked == was.asked && now.last_check == was.last_check
                    &&& now.yaw_deg == was.yaw_deg
                    &&& was.src == pucks[i].stamp() ==> now.history == was.history
                    &&& was.src != pucks[i].stamp() ==> now.history.len() == 0
                }
            &&& (forall|k: int| 0 <= k < watches.len() ==> (#[trigger] watches[k]).ip != pucks[i].ip)
                ==> now == fresh_watch(pucks[i], bridges)
        }),
    decreases pucks.len(),
{
    let front = pucks.drop_last();
    assert forall|a: int| 0 <= a < front.len() implies #[trigger] front[a] == pucks[a] by {}
    let (done, left) = rekeyed(watches, front, bridges);
    every_puck_is_watched(watches, front, bridges);
    if i < front.len() {
        a_changed_roster_forgets_no_puck(watches, front, bridges, i);
    } else {
        let p = pucks[i];
        lemma_watch_at(left, p.ip, 0);
        assert forall|k: int| 0 <= k < watches.len() && (#[trigger] watches[k]).ip
            == p.ip implies taken_over(left, p, bridges).0 == (if watches[k].src == p.stamp() {
            watches[k]
        } else {
            WatchView { src: p.stamp(), history: Seq::empty(), ..watches[k] }
        }) by {
            let was = watches[k];
            assert(watches.contains(was));
            lemma_left_over(watches, front, bridges, was);
            assert(left.contains(was));
            let m = choose|m: int| 0 <= m < left.len() && left[m] == was;
            assert(left[m].ip == p.ip);
            let at = watch_at(left, p.ip, 0)->0;
            let found = left[at as int];
            lemma_left_over(watches, front, bridges, found);
            assert(left.contains(found));
            let f = choose|f: int| 0 <= f < watches.len() && watches[f] == found;
            assert(watches[f].ip == watches[k].ip);
            assert(f == k);
        }
        if forall|k: int| 0 <= k < watches.len() ==> (#[trigger] watches[k]).ip != p.ip {
            if let Some(at) = watch_at(left, p.ip, 0) {
                let found = left[at as int];
                assert(left.contains(found));
                lemma_left_over(watches, front, bridges, found);
                let f = choose|f: int| 0 <= f < watches.len() && watches[f] == found;
                assert(watches[f].ip == p.ip);
            }
        }
    }
}

/// Only a sample that tracks says something, and only for 0.3 s; it can be paired for
/// 0.12 s.
pub proof fn only_a_recent_sample_counts(sample: Option<Sample>, now: u64)
    ensures
        telling(sample, now) <==> (sample matches Some(s) && s.packet.valid && now <= s.arrived
            + 300_000_000),
        can_pair(sample, now) <==> (sample matches Some(s) && s.packet.valid && now <= s.arrived
            + 120_000_000),
{
}

} // verus!
