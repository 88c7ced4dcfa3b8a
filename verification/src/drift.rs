//! Separation against motion.
//!
//! Physically, the separation of two pucks changes no faster than the sum of
//! their speeds. Someone carrying the pucks apart produces a large change that
//! is fully explained; a frame jump produces change with no motion behind it.
//!
//! A reading is entered in three moves, because the sums and differences are the
//! caller's: [`DriftDetector::extend`] with the time since the last reading and
//! the motion it accounts for, [`DriftDetector::settle`] with the age of every
//! reading in the window, and [`unexplained_is_drift`] with what is left.

use crate::ieee::{less, Double, Single};
use crate::mpt1::zero;
use std::collections::VecDeque;
use vstd::prelude::*;

verus! {

/// 3.0 s of readings make the window.
pub const WINDOW: u64 = 0x4008_0000_0000_0000;

/// Half the window, 1.5 s, is the least that can be judged.
pub const HALF_WINDOW: u64 = 0x3FF8_0000_0000_0000;

/// A gap of more than 0.5 s resets the window.
pub const GAP: u64 = 0x3FE0_0000_0000_0000;

/// 0.0 s.
pub const ZERO: u64 = 0;

/// 0.4 m of unexplained change is drift.
pub const UNEXPLAINED: u32 = 0x3ECC_CCCD;

/// One reading: its time in seconds, the separation, and the motion that is
/// explained up to it, in metres.
#[derive(Debug, Clone, Copy, PartialEq, Eq, Structural)]
pub struct Reading {
    pub t: Double,
    pub sep: Single,
    pub cum: Single,
}

pub struct DriftDetector {
    pub win: VecDeque<Reading>,
}

/// A gap, or a clock that ran backwards: summing reported speed across a dropout
/// would credit motion nobody measured.
pub open spec fn breaks(dt: Double) -> bool {
    dt.exceeds(GAP) || dt.undercuts(ZERO)
}

/// The window after another reading.
pub open spec fn extended(
    win: Seq<Reading>,
    t: Double,
    sep: Single,
    dt: Double,
    grown: Single,
) -> Seq<Reading> {
    if win.len() == 0 || breaks(dt) {
        seq![Reading { t, sep, cum: zero() }]
    } else {
        win.push(Reading { t, sep, cum: grown })
    }
}

/// How many readings at the front are older than the window, from `from` on.
pub open spec fn outdated(ages: Seq<Double>, from: nat) -> nat
    decreases ages.len() - from,
{
    if from < ages.len() && ages[from as int].exceeds(WINDOW) {
        outdated(ages, from + 1)
    } else {
        from
    }
}

/// A reading of that age is old enough to judge by.
pub open spec fn judgeable(age: Double) -> bool {
    !age.undercuts(HALF_WINDOW)
}

/// That much change without motion to explain it is drift.
pub open spec fn drifts(unexplained: Single) -> bool {
    unexplained.exceeds(UNEXPLAINED)
}

impl DriftDetector {
    /// No readings yet.
    pub fn new() -> (r: DriftDetector)
        ensures
            r.win@ == Seq::<Reading>::empty(),
    {
        DriftDetector { win: VecDeque::new() }
    }

    /// Forget every reading.
    pub fn reset(&mut self)
        ensures
            final(self).win@ == Seq::<Reading>::empty(),
    {
        self.win.clear();
    }

    /// The newest reading.
    pub fn last(&self) -> (r: Option<Reading>)
        ensures
            r == (if self.win@.len() > 0 {
                Some(self.win@.last())
            } else {
                None
            }),
    {
        let n: usize = self.win.len();
        if n > 0 {
            Some(self.win[n - 1])
        } else {
            None
        }
    }

    /// Enter a reading. `dt` is the time since the last one, and `grown` the
    /// motion explained up to now if that time was not a gap; both are without
    /// meaning for the first reading.
    pub fn extend(&mut self, t: Double, sep: Single, dt: Double, grown: Single)
        ensures
            final(self).win@ == extended(old(self).win@, t, sep, dt, grown),
    {
        let cum = if self.win.len() == 0 {
            Single { bits: 0 }
        } else if dt.above(GAP) || dt.below(ZERO) {
            self.win.clear();
            Single { bits: 0 }
        } else {
            grown
        };
        self.win.push_back(Reading { t, sep, cum });
        proof {
            assert(self.win@ =~= extended(old(self).win@, t, sep, dt, grown));
        }
    }

    /// Let the readings go that are older than the window, given the age of each,
    /// and hand out the oldest that is left, if it is old enough to judge by.
    pub fn settle(&mut self, ages: &Vec<Double>) -> (r: Option<Reading>)
        requires
            ages@.len() == old(self).win@.len(),
        ensures
            final(self).win@ == old(self).win@.skip(outdated(ages@, 0) as int),
            ({
                let k = outdated(ages@, 0);
                r == (if k < ages@.len() && judgeable(ages@[k as int]) {
                    Some(old(self).win@[k as int])
                } else {
                    None
                })
            }),
    {
        let ghost all = self.win@;
        let mut k: usize = 0;
        proof {
            assert(all.skip(0) =~= all);
        }
        while k < ages.len() && ages[k].above(WINDOW)
            invariant
                k <= ages@.len(),
                ages@.len() == all.len(),
                self.win@ == all.skip(k as int),
                outdated(ages@, 0) == outdated(ages@, k as nat),
            decreases ages.len() - k,
        {
            let _old = self.win.pop_front();
            proof {
                assert(self.win@ =~= all.skip(k + 1));
            }
            k = k + 1;
        }
        if k < ages.len() && !ages[k].below(HALF_WINDOW) {
            Some(self.win[0])
        } else {
            None
        }
    }
}

impl Default for DriftDetector {
    fn default() -> (r: DriftDetector)
        ensures
            r.win@ == Seq::<Reading>::empty(),
    {
        DriftDetector::new()
    }
}

/// Whether the change that motion does not explain is drift.
pub fn unexplained_is_drift(unexplained: Single) -> (r: bool)
    ensures
        r == drifts(unexplained),
{
    unexplained.above(UNEXPLAINED)
}

/// A gap leaves nothing to judge by: the window then holds the new reading alone,
/// which explains nothing and, being no older than half the window, is never
/// compared against.
pub proof fn a_gap_resets_instead_of_flagging(
    win: Seq<Reading>,
    t: Double,
    sep: Single,
    dt: Double,
    grown: Single,
    age: Double,
)
    requires
        breaks(dt),
        age.undercuts(HALF_WINDOW),
    ensures
        extended(win, t, sep, dt, grown) == seq![(Reading { t, sep, cum: zero() })],
        outdated(seq![age], 0) == 0,
{
    crate::ieee::lemma_double_order(HALF_WINDOW, WINDOW);
}

/// The readings kept are those of one stretch without a gap: a reading joins the
/// window where it follows within half a second, and starts it anew where it follows
/// later, or earlier than the one before. A window that starts anew explains nothing.
pub proof fn a_stretch_goes_on_within_half_a_second(
    win: Seq<Reading>,
    t: Double,
    sep: Single,
    dt: Double,
    grown: Single,
)
    ensures
        ({
            let next = extended(win, t, sep, dt, grown);
            let late = less(Double { bits: 0x3FE0_0000_0000_0000 }, dt);
            let back = less(dt, Double { bits: 0 });
            &&& next.len() > 0 && next.last().t == t && next.last().sep == sep
            &&& win.len() > 0 && !late && !back ==> next.len() == win.len() + 1 && next.drop_last()
                == win && next.last().cum == grown
            &&& win.len() == 0 || late || back ==> next.len() == 1 && next.last().cum.bits == 0
        }),
{
    assert(win.push(Reading { t, sep, cum: grown }).drop_last() =~= win);
}

/// What leaves the window is older than three seconds, and what stays first is not.
pub proof fn the_window_is_three_seconds(ages: Seq<Double>)
    ensures
        ({
            let k = outdated(ages, 0);
            &&& k <= ages.len()
            &&& forall|i: int|
                0 <= i < k ==> less(Double { bits: 0x4008_0000_0000_0000 }, #[trigger] ages[i])
            &&& k < ages.len() ==> !less(Double { bits: 0x4008_0000_0000_0000 }, ages[k as int])
        }),
{
    lemma_outdated(ages, 0);
}

/// A reading is judged by where it is at least one and a half seconds old, and what
/// motion leaves unexplained is drift where it is more than 0.4 m.
pub proof fn drift_is_judged_over_a_second_and_a_half(age: Double, unexplained: Single)
    ensures
        judgeable(age) <==> !less(age, Double { bits: 0x3FF8_0000_0000_0000 }),
        drifts(unexplained) <==> less(Single { bits: 0x3ECC_CCCD }, unexplained),
{
}

proof fn lemma_outdated(ages: Seq<Double>, from: nat)
    requires
        from <= ages.len(),
    ensures
        from <= outdated(ages, from) <= ages.len(),
        forall|i: int|
            from <= i < outdated(ages, from) ==> less(
                Double { bits: 0x4008_0000_0000_0000 },
                #[trigger] ages[i],
            ),
        outdated(ages, from) < ages.len() ==> !less(
            Double { bits: 0x4008_0000_0000_0000 },
            ages[outdated(ages, from) as int],
        ),
    decreases ages.len() - from,
{
    if from < ages.len() && ages[from as int].exceeds(WINDOW) {
        lemma_outdated(ages, from + 1);
    }
}

} // verus!
