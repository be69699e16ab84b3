//! The static part of the simulation: the city layout, lane rules, signal
//! phase definitions and per-vehicle parameters.  Built once by generation
//! and never mutated by the simulation core.

use crate::model::board::{Board, IntersectionIndex, RoadIndex};
use crate::model::common::{
    is_isqrt, AbsoluteDirection, AxisDirection, Geometry, InOutDirection, LaneDirection,
    LaneIndex, Position, QUANTITY_LIMIT,
};
use vstd::prelude::*;

pub mod car;
pub mod intersection;
pub mod road;

pub use car::Car;
pub use intersection::Intersection;
pub use road::{Lane, Road};

verus! {

/// Bound on the board dimensions, so that the coordinate sums stay small.
pub const DIMENSION_LIMIT: usize = 1000;

/// The immutable city: the board of intersections and roads plus the
/// integer geometry of every slot.
#[derive(Debug)]
pub struct City {
    pub board: Board<Option<Intersection>, Option<Road>>,
    /// Where new vehicles enter the simulation.
    pub car_out_intersection: IntersectionIndex,
    /// A spawn lane is unavailable while a vehicle sits within this distance
    /// of the intersection.
    pub car_out_min_distance: i64,
    pub lane_width: i64,
    pub horizontal_road_length: Vec<i64>,
    pub vertical_road_length: Vec<i64>,
    pub intersection_height: Vec<i64>,
    pub intersection_width: Vec<i64>,
}

impl Clone for City {
    /// Clone every part of the city.
    fn clone(&self) -> (r: Self) {
        City {
            board: self.board.clone(),
            car_out_intersection: self.car_out_intersection,
            car_out_min_distance: self.car_out_min_distance,
            lane_width: self.lane_width,
            horizontal_road_length: self.horizontal_road_length.clone(),
            vertical_road_length: self.vertical_road_length.clone(),
            intersection_height: self.intersection_height.clone(),
            intersection_width: self.intersection_width.clone(),
        }
    }
}

/// The immutable model: the city and the static parameters of every
/// vehicle slot.
#[derive(Clone, Debug)]
pub struct Model {
    pub city: City,
    pub cars: Vec<Car>,
}

/// Sum of the first `k` entries.
pub open spec fn sum_prefix(s: Seq<i64>, k: int) -> int
    decreases k,
{
    if k <= 0 {
        0
    } else {
        sum_prefix(s, k - 1) + s[k - 1]
    }
}

/// A prefix sum of quantities stays within `k * QUANTITY_LIMIT`.
pub proof fn lemma_sum_prefix_bounds(s: Seq<i64>, k: int)
    requires
        0 <= k <= s.len(),
        forall|i: int| 0 <= i < s.len() ==> 0 <= #[trigger] s[i] <= QUANTITY_LIMIT,
    ensures
        0 <= sum_prefix(s, k) <= k * QUANTITY_LIMIT,
    decreases k,
{
    if k > 0 {
        lemma_sum_prefix_bounds(s, k - 1);
        assert((k - 1) * QUANTITY_LIMIT + QUANTITY_LIMIT == k * QUANTITY_LIMIT)
            by (nonlinear_arith);
    }
}

/// Sum of the first `k` entries of `v`.
fn sum_prefix_exec(v: &Vec<i64>, k: usize) -> (r: i64)
    requires
        k <= v.len(),
        v.len() <= DIMENSION_LIMIT,
        forall|i: int| 0 <= i < v.len() ==> 0 <= #[trigger] v[i] <= QUANTITY_LIMIT,
    ensures
        r == sum_prefix(v@, k as int),
        0 <= r <= k * QUANTITY_LIMIT,
{
    let mut r: i64 = 0;
    let mut i: usize = 0;
    proof {
        lemma_sum_prefix_bounds(v@, k as int);
    }
    while i < k
        invariant
            i <= k <= v.len() <= DIMENSION_LIMIT,
            forall|t: int| 0 <= t < v.len() ==> 0 <= #[trigger] v@[t] <= QUANTITY_LIMIT,
            r == sum_prefix(v@, i as int),
            0 <= r <= i * QUANTITY_LIMIT,
        decreases k - i,
    {
        proof {
            lemma_sum_prefix_bounds(v@, i as int);
            lemma_sum_prefix_bounds(v@, i + 1);
        }
        r = r + v[i];
        i = i + 1;
    }
    r
}

impl City {
    /// All static quantities of the city are present and bounded: the
    /// length vectors match the board shape and every entry lies in
    /// `[0, QUANTITY_LIMIT]`; every road is narrow enough that its lane
    /// offsets stay within one quantity unit.
    pub open spec fn wf_geometry(&self) -> bool {
        &&& self.board.wf()
        &&& self.board.spec_m() <= DIMENSION_LIMIT
        &&& self.board.spec_n() <= DIMENSION_LIMIT
        &&& self.horizontal_road_length.len() == self.board.spec_n() - 1
        &&& self.vertical_road_length.len() == self.board.spec_m() - 1
        &&& self.intersection_width.len() == self.board.spec_n()
        &&& self.intersection_height.len() == self.board.spec_m()
        &&& forall|i: int|
            0 <= i < self.horizontal_road_length.len() ==> 0 <= #[trigger] self
                .horizontal_road_length[i] <= QUANTITY_LIMIT
        &&& forall|i: int|
            0 <= i < self.vertical_road_length.len() ==> 0 <= #[trigger] self
                .vertical_road_length[i] <= QUANTITY_LIMIT
        &&& forall|i: int|
            0 <= i < self.intersection_width.len() ==> 0 <= #[trigger] self.intersection_width[i]
                <= QUANTITY_LIMIT
        &&& forall|i: int|
            0 <= i < self.intersection_height.len() ==> 0 <= #[trigger] self.intersection_height[i]
                <= QUANTITY_LIMIT
        &&& 0 <= self.lane_width <= QUANTITY_LIMIT
        &&& 0 <= self.car_out_min_distance <= QUANTITY_LIMIT
        &&& self.car_out_intersection.0 < self.board.spec_m()
        &&& self.car_out_intersection.1 < self.board.spec_n()
    }

    /// The length of the road at `(direction, index)` along its travel
    /// axis.
    pub open spec fn spec_road_length(&self, direction: AxisDirection, index: RoadIndex) -> i64 {
        match direction {
            AxisDirection::Horizontal => self.horizontal_road_length[index.1 as int],
            AxisDirection::Vertical => self.vertical_road_length[index.0 as int],
        }
    }

    pub fn road_length(&self, direction: AxisDirection, index: RoadIndex) -> (r: i64)
        requires
            self.wf_geometry(),
            self.board.road_in_bounds(direction, index),
        ensures
            r == self.spec_road_length(direction, index),
            0 <= r <= QUANTITY_LIMIT,
    {
        match direction {
            AxisDirection::Horizontal => self.horizontal_road_length[index.1],
            AxisDirection::Vertical => self.vertical_road_length[index.0],
        }
    }

    /// The overall width and height of the city.
    pub fn geometry(&self) -> (r: Geometry)
        requires
            self.wf_geometry(),
        ensures
            r.width == sum_prefix(self.horizontal_road_length@, self.horizontal_road_length.len()
                as int) + sum_prefix(self.intersection_width@, self.intersection_width.len()
                as int),
            r.height == sum_prefix(self.vertical_road_length@, self.vertical_road_length.len()
                as int) + sum_prefix(self.intersection_height@, self.intersection_height.len()
                as int),
    {
        proof {
            lemma_sum_prefix_bounds(
                self.horizontal_road_length@,
                self.horizontal_road_length@.len() as int,
            );
            lemma_sum_prefix_bounds(self.intersection_width@, self.intersection_width@.len()
                as int);
            lemma_sum_prefix_bounds(
                self.vertical_road_length@,
                self.vertical_road_length@.len() as int,
            );
            lemma_sum_prefix_bounds(self.intersection_height@, self.intersection_height@.len()
                as int);
        }
        let width = sum_prefix_exec(&self.horizontal_road_length, self.horizontal_road_length.len())
            + sum_prefix_exec(&self.intersection_width, self.intersection_width.len());
        let height = sum_prefix_exec(&self.vertical_road_length, self.vertical_road_length.len())
            + sum_prefix_exec(&self.intersection_height, self.intersection_height.len());
        Geometry { width, height }
    }

    /// Centre of intersection `(i, j)`: the widths and road lengths before
    /// it, plus half its own extent.
    pub open spec fn spec_intersection_center(&self, i: int, j: int) -> Position {
        Position {
            x: (sum_prefix(self.intersection_width@, j) + sum_prefix(
                self.horizontal_road_length@,
                j,
            ) + self.intersection_width@[j] / 2) as i64,
            y: (sum_prefix(self.intersection_height@, i) + sum_prefix(
                self.vertical_road_length@,
                i,
            ) + self.intersection_height@[i] / 2) as i64,
        }
    }

    pub fn intersection_center(&self, index: IntersectionIndex) -> (r: Position)
        requires
            self.wf_geometry(),
            index.0 < self.board.spec_m(),
            index.1 < self.board.spec_n(),
        ensures
            r == self.spec_intersection_center(index.0 as int, index.1 as int),
    {
        let (i, j) = index;
        proof {
            lemma_sum_prefix_bounds(self.intersection_width@, j as int);
            lemma_sum_prefix_bounds(self.horizontal_road_length@, j as int);
            lemma_sum_prefix_bounds(self.intersection_height@, i as int);
            lemma_sum_prefix_bounds(self.vertical_road_length@, i as int);
        }
        let x = sum_prefix_exec(&self.intersection_width, j) + sum_prefix_exec(
            &self.horizontal_road_length,
            j,
        ) + self.intersection_width[j] / 2;
        let y = sum_prefix_exec(&self.intersection_height, i) + sum_prefix_exec(
            &self.vertical_road_length,
            i,
        ) + self.intersection_height[i] / 2;
        Position { x, y }
    }

    /// Centre of the horizontal road at `(i, j)`.
    pub fn horizontal_road_center(&self, index: RoadIndex) -> (r: Position)
        requires
            self.wf_geometry(),
            index.0 < self.board.spec_m(),
            index.1 < self.board.spec_n() - 1,
        ensures
            r.x == sum_prefix(self.intersection_width@, index.1 + 1) + sum_prefix(
                self.horizontal_road_length@,
                index.1 as int,
            ) + self.horizontal_road_length@[index.1 as int] / 2,
            r.y == self.spec_intersection_center(index.0 as int, index.1 as int).y,
    {
        let (i, j) = index;
        proof {
            lemma_sum_prefix_bounds(self.intersection_width@, j + 1);
            lemma_sum_prefix_bounds(self.horizontal_road_length@, j as int);
            lemma_sum_prefix_bounds(self.intersection_height@, i as int);
            lemma_sum_prefix_bounds(self.vertical_road_length@, i as int);
        }
        let x = sum_prefix_exec(&self.intersection_width, j + 1) + sum_prefix_exec(
            &self.horizontal_road_length,
            j,
        ) + self.horizontal_road_length[j] / 2;
        let y = sum_prefix_exec(&self.intersection_height, i) + sum_prefix_exec(
            &self.vertical_road_length,
            i,
        ) + self.intersection_height[i] / 2;
        Position { x, y }
    }

    /// Centre of the vertical road at `(i, j)`.
    pub fn vertical_road_center(&self, index: RoadIndex) -> (r: Position)
        requires
            self.wf_geometry(),
            index.0 < self.board.spec_m() - 1,
            index.1 < self.board.spec_n(),
        ensures
            r.x == self.spec_intersection_center(index.0 as int, index.1 as int).x,
            r.y == sum_prefix(self.intersection_height@, index.0 + 1) + sum_prefix(
                self.vertical_road_length@,
                index.0 as int,
            ) + self.vertical_road_length@[index.0 as int] / 2,
    {
        let (i, j) = index;
        proof {
            lemma_sum_prefix_bounds(self.intersection_width@, j as int);
            lemma_sum_prefix_bounds(self.horizontal_road_length@, j as int);
            lemma_sum_prefix_bounds(self.intersection_height@, i + 1);
            lemma_sum_prefix_bounds(self.vertical_road_length@, i as int);
        }
        let x = sum_prefix_exec(&self.intersection_width, j) + sum_prefix_exec(
            &self.horizontal_road_length,
            j,
        ) + self.intersection_width[j] / 2;
        let y = sum_prefix_exec(&self.intersection_height, i + 1) + sum_prefix_exec(
            &self.vertical_road_length,
            i,
        ) + self.vertical_road_length[i] / 2;
        Position { x, y }
    }

    /// Centre of the road at `(direction, index)`.
    pub fn road_center(&self, direction: AxisDirection, index: RoadIndex) -> (r: Position)
        requires
            self.wf_geometry(),
            self.board.road_in_bounds(direction, index),
        ensures
            direction is Horizontal ==> r == self.horizontal_road_center_spec(index),
            direction is Vertical ==> r == self.vertical_road_center_spec(index),
    {
        match direction {
            AxisDirection::Horizontal => self.horizontal_road_center(index),
            AxisDirection::Vertical => self.vertical_road_center(index),
        }
    }

    pub open spec fn horizontal_road_center_spec(&self, index: RoadIndex) -> Position {
        Position {
            x: (sum_prefix(self.intersection_width@, index.1 + 1) + sum_prefix(
                self.horizontal_road_length@,
                index.1 as int,
            ) + self.horizontal_road_length@[index.1 as int] / 2) as i64,
            y: self.spec_intersection_center(index.0 as int, index.1 as int).y,
        }
    }

    pub open spec fn vertical_road_center_spec(&self, index: RoadIndex) -> Position {
        Position {
            x: self.spec_intersection_center(index.0 as int, index.1 as int).x,
            y: (sum_prefix(self.intersection_height@, index.0 + 1) + sum_prefix(
                self.vertical_road_length@,
                index.0 as int,
            ) + self.vertical_road_length@[index.0 as int] / 2) as i64,
        }
    }

    /// Every road present on the board is well formed and narrow enough
    /// that its lane offsets stay within one quantity unit.
    pub open spec fn wf_roads(&self) -> bool {
        forall|a: AxisDirection, idx: RoadIndex|
            #[trigger] self.board.road_in_bounds(a, idx) ==> (match self.board.spec_road(a, idx) {
                Some(road) => road.wf() && self.lane_width * (road.lane_to_high.len()
                    + road.lane_to_low.len()) <= QUANTITY_LIMIT,
                None => true,
            })
    }

    /// Signed offset of a lane's centre line from its road's centre line.
    /// Lanes are laid side by side: the `HighToLow` lanes first (outermost
    /// first), then the `LowToHigh` lanes.
    pub open spec fn spec_lane_center_offset(
        &self,
        road: &Road,
        direction: LaneDirection,
        lane_index: int,
    ) -> int {
        let lane_number = road.lane_to_high.len() + road.lane_to_low.len();
        let top = -((self.lane_width * lane_number) / 2);
        let lane_offset = match direction {
            LaneDirection::HighToLow => road.lane_to_low.len() - 1 - lane_index,
            LaneDirection::LowToHigh => road.lane_to_low.len() + lane_index,
        };
        top + lane_offset * self.lane_width
    }

    /// Signed offset of a lane's centre line from its road's centre line.
    pub fn lane_center_offset(
        &self,
        road: &Road,
        direction: LaneDirection,
        lane_index: usize,
    ) -> (r: i64)
        requires
            self.wf_geometry(),
            road.wf(),
            self.lane_width * (road.lane_to_high.len() + road.lane_to_low.len())
                <= QUANTITY_LIMIT,
            lane_index < road.spec_lanes(direction).len(),
        ensures
            r == self.spec_lane_center_offset(road, direction, lane_index as int),
            -QUANTITY_LIMIT <= r <= QUANTITY_LIMIT,
    {
        let lane_number = road.lane_number();
        proof {
            assert(0 <= self.lane_width * lane_number) by (nonlinear_arith)
                requires
                    self.lane_width >= 0,
                    lane_number >= 0,
            ;
            assert(self.lane_width * (lane_number as i64) == self.lane_width * (
            road.lane_to_high.len() + road.lane_to_low.len()));
        }
        let top = -((self.lane_width * (lane_number as i64)) / 2);
        let lane_offset: i64 = match direction {
            LaneDirection::HighToLow => (road.lane_to_low.len() as i64) - 1 - (lane_index as i64),
            LaneDirection::LowToHigh => (road.lane_to_low.len() as i64) + (lane_index as i64),
        };
        proof {
            assert((road.lane_to_low.len() - 1 - lane_index) * self.lane_width >= -QUANTITY_LIMIT
                && lane_offset * self.lane_width <= self.lane_width * lane_number
                && (lane_offset >= 0 ==> lane_offset * self.lane_width >= 0))
                by (nonlinear_arith)
                requires
                    0 <= self.lane_width,
                    self.lane_width * lane_number <= QUANTITY_LIMIT,
                    lane_number == road.lane_to_high.len() + road.lane_to_low.len(),
                    match direction {
                        LaneDirection::HighToLow => lane_offset == road.lane_to_low.len() - 1
                            - lane_index && lane_index < road.lane_to_low.len(),
                        LaneDirection::LowToHigh => lane_offset == road.lane_to_low.len()
                            + lane_index && lane_index < road.lane_to_high.len(),
                    },
            ;
        }
        top + lane_offset * self.lane_width
    }

    /// The join point of one lane with the edge of an intersection,
    /// relative to the intersection's centre.  `None` when no road is
    /// present on that side or the lane index is out of range.
    pub open spec fn spec_join_position(
        &self,
        intersection_index: IntersectionIndex,
        direction: AbsoluteDirection,
        in_out: InOutDirection,
        lane_index: int,
    ) -> Option<Position> {
        let i = intersection_index.0 as int;
        let j = intersection_index.1 as int;
        match self.board.spec_context_side(i, j, direction) {
            None => None,
            Some(road_index) => {
                let road_direction = crate::model::common::spec_axis_direction(direction);
                let lane_direction = crate::model::common::spec_absolute_in_out_to_lane(
                    direction,
                    in_out,
                );
                let road = self.board.spec_road(road_direction, road_index)->Some_0;
                if lane_index < road.spec_lanes(lane_direction).len() {
                    let offset = self.spec_lane_center_offset(&road, lane_direction, lane_index);
                    let half = self.intersection_height@[i] / 2;
                    Some(
                        match direction {
                            AbsoluteDirection::North => Position { x: (-offset) as i64, y: half as i64 },
                            AbsoluteDirection::South => Position {
                                x: (-offset) as i64,
                                y: (-half) as i64,
                            },
                            AbsoluteDirection::East => Position { x: half as i64, y: offset as i64 },
                            AbsoluteDirection::West => Position {
                                x: (-half) as i64,
                                y: offset as i64,
                            },
                        },
                    )
                } else {
                    None
                }
            },
        }
    }

    /// The join point of one lane with the edge of an intersection,
    /// relative to the intersection's centre.
    pub fn intersection_road_join_position(
        &self,
        intersection_index: IntersectionIndex,
        direction: AbsoluteDirection,
        in_out: InOutDirection,
        lane_index: usize,
    ) -> (r: Option<Position>)
        requires
            self.wf_geometry(),
            self.wf_roads(),
            intersection_index.0 < self.board.spec_m(),
            intersection_index.1 < self.board.spec_n(),
        ensures
            r == self.spec_join_position(
                intersection_index,
                direction,
                in_out,
                lane_index as int,
            ),
            match r {
                Some(p) => -2 * QUANTITY_LIMIT <= p.x <= 2 * QUANTITY_LIMIT && -2 * QUANTITY_LIMIT
                    <= p.y <= 2 * QUANTITY_LIMIT,
                None => true,
            },
    {
        let geometry = self.intersection_geometry(intersection_index);
        let context = self.board.context_of_intersection(intersection_index);
        let road_index = match context.get(direction) {
            Some(road_index) => *road_index,
            None => {
                return None;
            },
        };
        let road_direction = direction.axis_direction();
        let lane_direction = LaneDirection::absolute_in_out_to_lane(direction, in_out);
        let road = match self.board.get_road(road_direction, road_index) {
            Some(Some(road)) => road,
            _ => {
                return None;
            },
        };
        if lane_index >= road.lanes_to_direction(lane_direction).len() {
            return None;
        }
        let offset = self.lane_center_offset(road, lane_direction, lane_index);
        let half = geometry.height / 2;
        let position = match direction {
            AbsoluteDirection::North => Position { x: -offset, y: half },
            AbsoluteDirection::South => Position { x: -offset, y: -half },
            AbsoluteDirection::East => Position { x: half, y: offset },
            AbsoluteDirection::West => Position { x: -half, y: offset },
        };
        Some(position)
    }

    /// The length of the path a vehicle follows through an intersection:
    /// the rounded Euclidean distance between the entry and exit join
    /// points.  `None` when either join point does not exist.
    pub fn intersection_path_total_length(
        &self,
        intersection_index: IntersectionIndex,
        from_direction: AbsoluteDirection,
        from_lane_index: usize,
        to_direction: AbsoluteDirection,
        to_lane_index: usize,
    ) -> (r: Option<i64>)
        requires
            self.wf_geometry(),
            self.wf_roads(),
            intersection_index.0 < self.board.spec_m(),
            intersection_index.1 < self.board.spec_n(),
        ensures
            r is Some <==> self.spec_join_position(
                intersection_index,
                from_direction,
                InOutDirection::In,
                from_lane_index as int,
            ) is Some && self.spec_join_position(
                intersection_index,
                to_direction,
                InOutDirection::Out,
                to_lane_index as int,
            ) is Some,
            match r {
                Some(length) => {
                    let from = self.spec_join_position(
                        intersection_index,
                        from_direction,
                        InOutDirection::In,
                        from_lane_index as int,
                    )->Some_0;
                    let to = self.spec_join_position(
                        intersection_index,
                        to_direction,
                        InOutDirection::Out,
                        to_lane_index as int,
                    )->Some_0;
                    &&& is_isqrt(
                        length as int,
                        (from.x - to.x) * (from.x - to.x) + (from.y - to.y) * (from.y - to.y),
                    )
                    &&& 0 <= length <= 8 * QUANTITY_LIMIT
                },
                None => true,
            },
    {
        let from_position = match self.intersection_road_join_position(
            intersection_index,
            from_direction,
            InOutDirection::In,
            from_lane_index,
        ) {
            Some(p) => p,
            None => {
                return None;
            },
        };
        let to_position = match self.intersection_road_join_position(
            intersection_index,
            to_direction,
            InOutDirection::Out,
            to_lane_index,
        ) {
            Some(p) => p,
            None => {
                return None;
            },
        };
        Some(from_position.distance(to_position))
    }

    /// The width and height of one intersection slot.
    pub fn intersection_geometry(&self, index: IntersectionIndex) -> (r: Geometry)
        requires
            self.wf_geometry(),
            index.0 < self.board.spec_m(),
            index.1 < self.board.spec_n(),
        ensures
            r.width == self.intersection_width@[index.1 as int],
            r.height == self.intersection_height@[index.0 as int],
            0 <= r.width <= QUANTITY_LIMIT,
            0 <= r.height <= QUANTITY_LIMIT,
    {
        Geometry {
            width: self.intersection_width[index.1],
            height: self.intersection_height[index.0],
        }
    }
}


impl City {
    /// Every intersection present on the board is well formed.
    pub open spec fn wf_intersections(&self) -> bool {
        forall|i: int, j: int|
            #[trigger] self.board.intersections.in_bounds(i, j) ==> (
            match self.board.intersections.spec_at(i, j) {
                Some(intersection) => intersection.wf(),
                None => true,
            })
    }

    /// The turn rules close over the road graph: every turn a lane permits
    /// leads to a side of its target intersection that holds a road with at
    /// least one outgoing lane, and both ends of every road hold an
    /// intersection.
    pub open spec fn wf_connected(&self) -> bool {
        &&& forall|a: AxisDirection, idx: RoadIndex, ld: LaneDirection|
            #[trigger] self.board.road_in_bounds(a, idx) && self.board.spec_road(a, idx) is Some
                ==> self.board.intersections.spec_at(
                #[trigger] crate::model::board::spec_lane_to_intersection(a, idx, ld).0 as int,
                crate::model::board::spec_lane_to_intersection(a, idx, ld).1 as int,
            ) is Some
        &&& forall|a: AxisDirection, idx: RoadIndex, ld: LaneDirection, li: int, t: crate::model::common::RelativeDirection|
            #[trigger] self.lane_rule_allows(a, idx, ld, li, t) ==> self.turn_leads_to_road(
                a,
                idx,
                ld,
                t,
            )
    }

    /// Road `(a, idx)` exists and lane `li` in direction `ld` permits the
    /// relative turn `t`.
    pub open spec fn lane_rule_allows(
        &self,
        a: AxisDirection,
        idx: RoadIndex,
        ld: LaneDirection,
        li: int,
        t: crate::model::common::RelativeDirection,
    ) -> bool {
        let road = self.board.spec_road(a, idx)->Some_0;
        &&& self.board.road_in_bounds(a, idx)
        &&& self.board.spec_road(a, idx) is Some
        &&& 0 <= li < road.spec_lanes(ld).len()
        &&& road.spec_lanes(ld)[li].direction_rule.allows(t)
    }

    /// From a lane of road `(a, idx)` travelling `ld`, the relative turn
    /// `t` leads to a road with at least one outgoing lane.
    pub open spec fn turn_leads_to_road(
        &self,
        a: AxisDirection,
        idx: RoadIndex,
        ld: LaneDirection,
        t: crate::model::common::RelativeDirection,
    ) -> bool {
        let x = crate::model::board::spec_lane_to_intersection(a, idx, ld);
        let heading = crate::model::common::spec_of_lane(a, ld);
        let to = crate::model::common::spec_turn(heading, t);
        let side = self.board.spec_context_side(x.0 as int, x.1 as int, to);
        match side {
            None => false,
            Some(rid) => {
                let out_ld = crate::model::common::spec_absolute_in_out_to_lane(
                    to,
                    InOutDirection::Out,
                );
                let road = self.board.spec_road(
                    crate::model::common::spec_axis_direction(to),
                    rid,
                )->Some_0;
                road.spec_lanes(out_ld).len() >= 1
            },
        }
    }

    /// The full static invariant of the city.
    pub open spec fn wf(&self) -> bool {
        &&& self.wf_geometry()
        &&& self.wf_roads()
        &&& self.wf_intersections()
        &&& self.wf_connected()
    }
}

} // verus!
