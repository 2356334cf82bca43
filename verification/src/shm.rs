use vstd::prelude::*;

verus! {

/// Number of observation values carried by a frame.
pub const STATE_DIM: usize = 16;

/// Number of action values carried by a frame.
pub const ACTION_DIM: usize = 4;

/// Number of reward objectives carried by a frame.
pub const REWARD_DIM: usize = 2;

/// Number of safety-rule mask bytes carried by a frame.
pub const RULE_MASK_DIM: usize = 8;

} // verus!
