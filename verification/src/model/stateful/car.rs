//! The mutable state of one vehicle.

use crate::model::board::{IntersectionIndex, RoadIndex};
use crate::model::common::{
    AbsoluteDirection, AxisDirection, LaneDirection, LaneIndex, RelativeDirection,
};
use vstd::prelude::*;

verus! {

/// One vehicle: where it is, how fast it moves and how hard it is
/// currently accelerating or braking.
#[derive(Clone, Copy, Debug, PartialEq, Eq)]
pub struct Car {
    pub location: Location,
    pub velocity: i64,
    pub acceleration: i64,
}

/// Where a vehicle is.
#[derive(Clone, Copy, Debug, PartialEq, Eq)]
pub enum Location {
    /// Travelling along one lane; `position` runs from 0 at the start of
    /// the lane to the road length at the intersection, and
    /// `about_to_turn` is the queued decision for that intersection.
    OnLane {
        road_direction: AxisDirection,
        road_index: RoadIndex,
        lane_direction: LaneDirection,
        lane_index: LaneIndex,
        about_to_turn: RelativeDirection,
        position: i64,
    },
    /// Moving sideways between two lanes of the same road.
    ChangingLane {
        road_direction: AxisDirection,
        road_index: RoadIndex,
        lane_direction: LaneDirection,
        from_lane_index: LaneIndex,
        to_lane_index: LaneIndex,
        position: i64,
        /// How far the sideways move has progressed.
        lane_changed_proportion: i64,
    },
    /// Crossing an intersection from an entry lane to an exit lane;
    /// `position` runs from 0 to `total_length` along the path between the
    /// two join points.
    InIntersection {
        intersection_index: IntersectionIndex,
        from_direction: AbsoluteDirection,
        from_lane_index: LaneIndex,
        to_direction: AbsoluteDirection,
        to_lane_index: LaneIndex,
        total_length: i64,
        position: i64,
    },
}

} // verus!
