use vstd::prelude::*;

verus! {

/// Number of distinct values of a uniform 64-bit draw.
pub const DRAW_RANGE: u128 = 0x1_0000_0000_0000_0000;

/// Half of [`DRAW_RANGE`]: the threshold of probability one half.
pub const HALF_RANGE: u128 = 0x8000_0000_0000_0000;

/// The conditional up-probabilities of the heat-bath rule, one for each value
/// of the neighbour sum.
///
/// A threshold `t` in `[0, DRAW_RANGE]` stands for the probability
/// `t / 2^64`: a site becomes `+1` exactly when its uniform draw `d` in
/// `[0, 2^64)` satisfies `d < t`. For a probability `p`, the threshold
/// `ceil(p * 2^64)` makes this the same decision as `d / 2^64 < p`.
///
/// Sign convention: the local field is `a = j' * (left + right) + h'`, so a
/// positive coupling favours aligned neighbours (ferromagnetic).
#[derive(Clone, Copy, Debug, PartialEq, Eq)]
pub struct HeatBath {
    /// Threshold when both neighbours are down (sum `-2`).
    pub down: u128,
    /// Threshold when the neighbours disagree (sum `0`).
    pub zero: u128,
    /// Threshold when both neighbours are up (sum `2`).
    pub up: u128,
}

impl HeatBath {
    /// Every threshold lies in `[0, DRAW_RANGE]`.
    pub open spec fn wf(&self) -> bool {
        &&& self.down <= DRAW_RANGE
        &&& self.zero <= DRAW_RANGE
        &&& self.up <= DRAW_RANGE
    }

    /// The threshold used for a site whose neighbours sum to `sum`.
    pub open spec fn threshold_spec(&self, sum: int) -> u128 {
        if sum < 0 {
            self.down
        } else if sum == 0 {
            self.zero
        } else {
            self.up
        }
    }

    /// Without an external field the rule is invariant under flipping every
    /// spin: the up-probability for sum `s` is the down-probability for `-s`.
    pub open spec fn is_symmetric(&self) -> bool {
        &&& self.wf()
        &&& self.zero == HALF_RANGE
        &&& self.down + self.up == DRAW_RANGE
    }

    /// Builds the rule from its three thresholds.
    pub fn new(down: u128, zero: u128, up: u128) -> (r: Result<HeatBath, BathError>)
        ensures
            (down <= DRAW_RANGE && zero <= DRAW_RANGE && up <= DRAW_RANGE) <==> r.is_ok(),
            r matches Ok(b) ==> b.wf() && b.down == down && b.zero == zero && b.up == up,
    {
        if down <= DRAW_RANGE && zero <= DRAW_RANGE && up <= DRAW_RANGE {
            Ok(HeatBath { down, zero, up })
        } else {
            Err(BathError::ThresholdOutOfRange)
        }
    }

    /// Builds the zero-field rule from the threshold for aligned-up
    /// neighbours: disagreeing neighbours give one half, and aligned-down
    /// neighbours give the complement of `up`.
    pub fn symmetric(up: u128) -> (r: Result<HeatBath, BathError>)
        ensures
            (up <= DRAW_RANGE) <==> r.is_ok(),
            r matches Ok(b) ==> b.is_symmetric() && b.up == up,
    {
        if up <= DRAW_RANGE {
            Ok(HeatBath { down: DRAW_RANGE - up, zero: HALF_RANGE, up })
        } else {
            Err(BathError::ThresholdOutOfRange)
        }
    }

    /// The threshold for a site whose neighbours sum to `sum`.
    pub fn threshold(&self, sum: i8) -> (r: u128)
        ensures
            r == self.threshold_spec(sum as int),
    {
        if sum < 0 {
            self.down
        } else if sum == 0 {
            self.zero
        } else {
            self.up
        }
    }
}

/// A threshold outside `[0, DRAW_RANGE]`.
#[derive(Clone, Copy, Debug, PartialEq, Eq)]
pub enum BathError {
    ThresholdOutOfRange,
}

} // verus!
