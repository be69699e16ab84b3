//! Static per-vehicle parameters, indexed like the mutable vehicle list
//! and never mutated.

use crate::model::common::QUANTITY_LIMIT;
use vstd::prelude::*;

verus! {

/// The fixed parameters of one vehicle slot.
#[derive(Clone, Copy, Debug, PartialEq, Eq, Structural)]
pub struct Car {
    pub max_velocity: i64,
    pub max_acceleration: i64,
    pub max_break_acceleration: i64,
    pub lane_change_time: i64,
    pub driving_model: DrivingModel,
}

/// The car-following model parameters.
#[derive(Clone, Copy, Debug, PartialEq, Eq, Structural)]
pub enum DrivingModel {
    Normal {
        /// Minimum cushion kept to the obstacle ahead.
        min_cushion: i64,
        /// Extra cushion per unit of the obstacle's speed.
        cushion_velocity_factor: i64,
        /// Horizon over which the driver plans to close the gap.
        prediction_time: i64,
    },
}

impl DrivingModel {
    /// All parameters are bounded quantities and the prediction horizon is
    /// positive.
    pub open spec fn wf(&self) -> bool {
        match self {
            DrivingModel::Normal { min_cushion, cushion_velocity_factor, prediction_time } => {
                &&& 0 <= *min_cushion <= QUANTITY_LIMIT
                &&& 0 <= *cushion_velocity_factor <= QUANTITY_LIMIT
                &&& 1 <= *prediction_time <= QUANTITY_LIMIT
            },
        }
    }
}

impl Car {
    /// All parameters are bounded quantities.
    pub open spec fn wf(&self) -> bool {
        &&& 0 <= self.max_velocity <= QUANTITY_LIMIT
        &&& 0 <= self.max_acceleration <= QUANTITY_LIMIT
        &&& 0 <= self.max_break_acceleration <= QUANTITY_LIMIT
        &&& 0 <= self.lane_change_time <= QUANTITY_LIMIT
        &&& self.driving_model.wf()
    }
}

} // verus!
