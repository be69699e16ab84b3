//! Static road data: the lanes in each direction of travel.

use crate::model::common::{LaneDirection, TurnRule, QUANTITY_LIMIT};
use vstd::prelude::*;

verus! {

/// Bound on the number of lanes of one road.
pub const LANE_LIMIT: usize = 1000;

/// A road's lanes: `lane_to_high` travel in the `LowToHigh` direction,
/// `lane_to_low` in the other.
#[derive(Clone, Debug)]
pub struct Road {
    pub lane_to_high: Vec<Lane>,
    pub lane_to_low: Vec<Lane>,
}

/// One lane: its speed limit and the turns permitted when leaving it.
#[derive(Clone, Copy, Debug, PartialEq, Eq, Structural)]
pub struct Lane {
    pub max_speed: i64,
    pub direction_rule: TurnRule,
}

impl Road {
    /// A road has at least one lane in at least one direction, and every
    /// lane's speed limit is a bounded quantity.
    pub open spec fn wf(&self) -> bool {
        &&& 1 <= self.lane_to_high.len() + self.lane_to_low.len() <= LANE_LIMIT
        &&& forall|i: int|
            0 <= i < self.lane_to_high.len() ==> 0 <= (#[trigger] self.lane_to_high[i]).max_speed
                <= QUANTITY_LIMIT
        &&& forall|i: int|
            0 <= i < self.lane_to_low.len() ==> 0 <= (#[trigger] self.lane_to_low[i]).max_speed
                <= QUANTITY_LIMIT
    }

    /// The lanes travelling in `lane_direction`, as a spec projection.
    pub open spec fn spec_lanes(&self, lane_direction: LaneDirection) -> Seq<Lane> {
        match lane_direction {
            LaneDirection::HighToLow => self.lane_to_low@,
            LaneDirection::LowToHigh => self.lane_to_high@,
        }
    }

    /// Whether all lanes travel in one direction.
    pub fn is_one_way(&self) -> (r: bool)
        ensures
            r == (self.lane_to_high.len() == 0 || self.lane_to_low.len() == 0),
    {
        self.lane_to_high.len() == 0 || self.lane_to_low.len() == 0
    }

    /// The total number of lanes in both directions.
    pub fn lane_number(&self) -> (r: usize)
        requires
            self.lane_to_high.len() + self.lane_to_low.len() <= usize::MAX,
        ensures
            r == self.lane_to_high.len() + self.lane_to_low.len(),
    {
        self.lane_to_high.len() + self.lane_to_low.len()
    }

    /// The lanes travelling in `lane_direction`.
    pub fn lanes_to_direction(&self, lane_direction: LaneDirection) -> (r: &Vec<Lane>)
        ensures
            r@ == self.spec_lanes(lane_direction),
    {
        match lane_direction {
            LaneDirection::HighToLow => &self.lane_to_low,
            LaneDirection::LowToHigh => &self.lane_to_high,
        }
    }
}

} // verus!
