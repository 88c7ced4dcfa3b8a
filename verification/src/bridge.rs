//! Bridging a puck's LOCAL space to its Insight world frame.
//!
//! The tracker app publishes poses in a LOCAL space, whose origin is wherever
//! the session started; what the pucks share is the Insight world frame. At any
//! instant the same headset has a pose in both frames, so reading both at nearly
//! the same time gives one candidate for the transform between them. A few
//! candidates are averaged, and their spread tells whether the puck was still.
//!
//! The rotations themselves are computed by the caller. Here is what makes a
//! solution of them: how many candidates it takes, which translation is taken,
//! and how far the candidates disagree.

use crate::ieee::{all_numbers, greatest, is_greatest, is_median, median, Real, Single};
use crate::mpt1::{zero, Pose};
use crate::transform::Frame4Dof;
use vstd::prelude::*;

verus! {

/// One simultaneous observation of the same headset in both frames.
#[derive(Debug, Clone, Copy, PartialEq, Eq)]
pub struct PosePair {
    /// In the Insight world frame.
    pub world: Pose,
    /// In the LOCAL frame of the tracker's stream.
    pub local: Pose,
}

#[derive(Debug, Clone, Copy, PartialEq, Eq)]
pub struct BridgeSolution {
    pub transform: Frame4Dof,
    /// Worst yaw disagreement among candidates, degrees. Above about 2 the puck
    /// was moving between paired reads.
    pub yaw_spread_deg: Single,
    /// Worst per-axis translation disagreement, metres.
    pub t_spread_m: Single,
    pub pairs: usize,
}

/// The fewest candidates that make a solution.
pub const MIN_PAIRS: usize = 3;

/// The translation that candidates make: the median on each axis. Every
/// coordinate has to be a number.
pub fn middle(xs: &Vec<Single>, ys: &Vec<Single>, zs: &Vec<Single>) -> (r: [Single; 3])
    requires
        xs@.len() > 0,
        ys@.len() > 0,
        zs@.len() > 0,
        all_numbers(xs@),
        all_numbers(ys@),
        all_numbers(zs@),
    ensures
        is_median(xs@, r[0]),
        is_median(ys@, r[1]),
        is_median(zs@, r[2]),
{
    [median(xs), median(ys), median(zs)]
}

/// The solution that candidates make, given the yaw and the translation taken
/// from them, the yaw spread, and how far each candidate's translation is off on
/// each axis. Fewer than three candidates make none.
pub fn solve(
    pairs: &Vec<PosePair>,
    transform: Frame4Dof,
    yaw_spread_deg: Single,
    off: &Vec<Single>,
) -> (r: Option<BridgeSolution>)
    ensures
        match r {
            Some(s) => pairs@.len() >= MIN_PAIRS && s.transform == transform && s.yaw_spread_deg
                == yaw_spread_deg && s.pairs == pairs@.len() && is_greatest(
                zero(),
                off@,
                s.t_spread_m,
            ) && !s.t_spread_m.nan(),
            None => pairs@.len() < MIN_PAIRS,
        },
{
    if pairs.len() < MIN_PAIRS {
        return None;
    }
    let t_spread_m = greatest(Single { bits: 0 }, off);
    Some(BridgeSolution { transform, yaw_spread_deg, t_spread_m, pairs: pairs.len() })
}

} // verus!
