//! 4-DoF frame transforms.
//!
//! Every frame in this system is gravity-aligned Y-up, so the transform between
//! any two of them is yaw about +Y plus a translation.

use crate::ieee::Single;
use crate::mpt1::zero;
use vstd::prelude::*;

verus! {

#[derive(Debug, Clone, Copy, PartialEq, Eq)]
pub struct Frame4Dof {
    /// Rotation about +Y, radians.
    pub yaw: Single,
    pub t: [Single; 3],
}

impl Frame4Dof {
    /// The transform that changes nothing.
    pub open spec fn still() -> Frame4Dof {
        Frame4Dof { yaw: zero(), t: [zero(), zero(), zero()] }
    }

    /// The transform that changes nothing.
    pub fn identity() -> (r: Frame4Dof)
        ensures
            r == Frame4Dof::still(),
    {
        let o = Single { bits: 0 };
        Frame4Dof { yaw: o, t: [o, o, o] }
    }
}

} // verus!
