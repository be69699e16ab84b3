//! The data model of the simulation: the immutable description of the city
//! and vehicles (`stateless`) and the per-tick mutable part (`stateful`),
//! over a shared board of intersection and road slots.

use vstd::prelude::*;

pub mod board;
pub mod codec;
pub mod common;
pub mod stateful;
pub mod stateless;

verus! {

/// The whole simulation state: the immutable description and the mutable
/// part, always carried together.
#[derive(Clone, Debug)]
pub struct Model {
    pub stateless: stateless::Model,
    pub stateful: stateful::Model,
}


/// Bound every vehicle velocity can reach: at most one boost toward an
/// intersection's speed limit above the static bound.
pub const VELOCITY_LIMIT: i64 = 500_001_000_000;

impl Model {
    /// The stateless city is well formed, the stateful city pairs with it
    /// cell by cell, the two vehicle arrays line up and every vehicle is
    /// well placed.
    pub open spec fn wf(&self) -> bool {
        &&& self.stateless.city.wf()
        &&& wf_city_pair(&self.stateless.city, &self.stateful.city)
        &&& self.stateful.cars.len() == self.stateless.cars.len()
        &&& forall|i: int|
            0 <= i < self.stateless.cars.len() ==> (#[trigger] self.stateless.cars[i]).wf()
        &&& forall|i: int|
            0 <= i < self.stateful.cars.len() ==> (match #[trigger] self.stateful.cars[i] {
                Some(car) => wf_car(&self.stateless.city, car),
                None => true,
            })
    }
}

/// The stateful city pairs with the stateless one: same board shape, an
/// intersection state exactly where a definition is, of the matching kind
/// and with its indices in range.
pub open spec fn wf_city_pair(sl: &stateless::City, sf: &stateful::City) -> bool {
    &&& sf.board.wf()
    &&& sf.board.spec_m() == sl.board.spec_m()
    &&& sf.board.spec_n() == sl.board.spec_n()
    &&& forall|i: int, j: int|
        #[trigger] sf.board.intersections.in_bounds(i, j) ==> (match (
        sl.board.intersections.spec_at(i, j),
        sf.board.intersections.spec_at(i, j),
    ) {
        (Some(sl_int), Some(sf_int)) => sf_int.matches_stateless(&sl_int) && sf_int.wf(),
        (None, None) => true,
        _ => false,
    })
}

/// A well-placed vehicle: its location indices exist in the city, its
/// queued turn is permitted by its lane, and its quantities are bounded.
pub open spec fn wf_car(city: &stateless::City, car: stateful::Car) -> bool {
    &&& 0 <= car.velocity <= VELOCITY_LIMIT
    &&& -common::QUANTITY_LIMIT <= car.acceleration <= common::QUANTITY_LIMIT
    &&& match car.location {
        stateful::Location::OnLane {
            road_direction,
            road_index,
            lane_direction,
            lane_index,
            about_to_turn,
            position,
        } => {
            &&& city.board.road_in_bounds(road_direction, road_index)
            &&& city.board.spec_road(road_direction, road_index) is Some
            &&& {
                let road = city.board.spec_road(road_direction, road_index)->Some_0;
                &&& lane_index < road.spec_lanes(lane_direction).len()
                &&& road.spec_lanes(lane_direction)[lane_index as int].direction_rule.allows(
                    about_to_turn,
                )
            }
            &&& 0 <= position <= common::QUANTITY_LIMIT
        },
        stateful::Location::ChangingLane { .. } => false,
        stateful::Location::InIntersection {
            intersection_index,
            from_direction: _,
            from_lane_index: _,
            to_direction,
            to_lane_index,
            total_length,
            position,
        } => {
            &&& intersection_index.0 < city.board.spec_m()
            &&& intersection_index.1 < city.board.spec_n()
            &&& city.board.intersections.spec_at(
                intersection_index.0 as int,
                intersection_index.1 as int,
            ) is Some
            &&& {
                let side = city.board.spec_context_side(
                    intersection_index.0 as int,
                    intersection_index.1 as int,
                    to_direction,
                );
                &&& side is Some
                &&& {
                    let road = city.board.spec_road(
                        common::spec_axis_direction(to_direction),
                        side->Some_0,
                    )->Some_0;
                    to_lane_index < road.spec_lanes(
                        common::spec_absolute_in_out_to_lane(
                            to_direction,
                            common::InOutDirection::Out,
                        ),
                    ).len()
                }
            }
            &&& 0 <= total_length <= 8 * common::QUANTITY_LIMIT
            &&& 0 <= position <= 8 * common::QUANTITY_LIMIT
        },
    }
}


/// The placement part of the vehicle invariant: every lane the vehicle
/// touches exists and its position is a bounded quantity.  This is what
/// the per-tick snapshot needs of its input; a mid-lane-change vehicle is
/// placed on both its source and destination lanes.
pub open spec fn wf_car_placed(city: &stateless::City, car: stateful::Car) -> bool {
    match car.location {
        stateful::Location::OnLane {
            road_direction,
            road_index,
            lane_direction,
            lane_index,
            about_to_turn: _,
            position,
        } => {
            &&& city.board.road_in_bounds(road_direction, road_index)
            &&& city.board.spec_road(road_direction, road_index) is Some
            &&& lane_index < (city.board.spec_road(road_direction, road_index)->Some_0).spec_lanes(
                lane_direction,
            ).len()
            &&& 0 <= position <= common::QUANTITY_LIMIT
        },
        stateful::Location::ChangingLane {
            road_direction,
            road_index,
            lane_direction,
            from_lane_index,
            to_lane_index,
            position,
            ..
        } => {
            &&& city.board.road_in_bounds(road_direction, road_index)
            &&& city.board.spec_road(road_direction, road_index) is Some
            &&& from_lane_index < (city.board.spec_road(
                road_direction,
                road_index,
            )->Some_0).spec_lanes(lane_direction).len()
            &&& to_lane_index < (city.board.spec_road(
                road_direction,
                road_index,
            )->Some_0).spec_lanes(lane_direction).len()
            &&& 0 <= position <= common::QUANTITY_LIMIT
        },
        stateful::Location::InIntersection { .. } => true,
    }
}

} // verus!
